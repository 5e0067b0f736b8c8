//! Properties records and the configuration that maps tags to overriding
//! records.
//!
//! Resolution of a job's tag set against a configuration is first-match over
//! the tag set's own order: the earliest tag that carries an override wins,
//! and overrides are never merged.

use vstd::prelude::*;

use crate::tag_set::TagSet;

verus! {

/// Largest hourly rate a properties record may carry, in cents per hour.
pub const MAX_RATE: u64 = 100_000_000;

/// Reporting settings for jobs, either as the base record or as a tag's
/// override.
///
/// * `resolution`: the rounding unit for a job's hours, in minutes.
/// * `rate`: pay per hour in cents; absent means pay is not computed.
/// * `max_hours`: most allowed hours per day; absent means exceedance is
///   never flagged.
#[derive(Clone, Copy, Debug)]
pub struct Properties {
    pub resolution: u32,
    pub rate: Option<u64>,
    pub max_hours: Option<u32>,
}

impl Properties {
    /// The rounding unit is a positive number of minutes and the rate stays
    /// within machine range.
    pub open spec fn well_formed(self) -> bool {
        &&& 1 <= self.resolution <= 1440
        &&& match self.rate {
            Some(r) => r <= MAX_RATE,
            None => true,
        }
    }
}

/// A base properties record plus per-tag overriding records.  Lookups are by
/// single tag, never by tag combination.
#[derive(Debug)]
pub struct Configuration {
    pub base: Properties,
    pub tags: Vec<(String, Properties)>,
}

/// The override recorded for a tag, if any: the first entry with that key.
pub open spec fn spec_override(entries: Seq<(String, Properties)>, t: Seq<char>) -> Option<
    Properties,
>
    decreases entries.len(),
{
    if entries.len() == 0 {
        None
    } else if entries[0].0@ == t {
        Some(entries[0].1)
    } else {
        spec_override(entries.skip(1), t)
    }
}

/// What a tag sequence resolves to: the first tag with an override, paired
/// with that override, or the empty label paired with the base record.
pub open spec fn spec_resolve(tags: Seq<Seq<char>>, c: Configuration) -> (Seq<char>, Properties)
    decreases tags.len(),
{
    if tags.len() == 0 {
        (Seq::empty(), c.base)
    } else {
        match spec_override(c.tags@, tags[0]) {
            Some(p) => (tags[0], p),
            None => spec_resolve(tags.skip(1), c),
        }
    }
}

impl Configuration {
    /// The base and every override are well formed.  An entry's key may
    /// recur: lookups take the first match, so an earlier entry shadows a
    /// later one.
    pub open spec fn well_formed(self) -> bool {
        &&& self.base.well_formed()
        &&& forall|i: int|
            0 <= i < self.tags@.len() ==> (#[trigger] self.tags@[i]).1.well_formed()
    }

    /// A configuration with the given base record and no overrides.
    pub fn new(base: Properties) -> (r: Configuration)
        ensures
            r.base == base,
            r.tags@.len() == 0,
            base.well_formed() ==> r.well_formed(),
    {
        Configuration { base, tags: Vec::new() }
    }

    /// The override recorded for a tag, if any.
    pub fn override_of(&self, tag: &String) -> (r: Option<Properties>)
        ensures
            r == spec_override(self.tags@, tag@),
    {
        let ghost entries = self.tags@;
        proof {
            assert(entries.skip(0) =~= entries);
        }
        let mut i: usize = 0;
        while i < self.tags.len()
            invariant
                i <= entries.len(),
                entries == self.tags@,
                spec_override(entries, tag@) == spec_override(entries.skip(i as int), tag@),
            decreases entries.len() - i,
        {
            proof {
                assert(entries.skip(i as int)[0] == entries[i as int]);
                assert(entries.skip(i as int).skip(1) =~= entries.skip(i + 1 as int));
            }
            if crate::tag_set::string_eq(&self.tags[i].0, tag) {
                return Some(self.tags[i].1);
            }
            i = i + 1;
        }
        proof {
            assert(entries.skip(entries.len() as int) =~= Seq::<(String, Properties)>::empty());
        }
        None
    }

    /// Resolve a tag set: the first tag (in the set's own order) with an
    /// override, with that override; the empty label with the base record if
    /// no tag has one.  Overrides are never merged.
    pub fn get_and_why(&self, tags: &TagSet) -> (r: (String, Properties))
        ensures
            (r.0@, r.1) == spec_resolve(tags@, *self),
    {
        let ghost labels = tags@;
        proof {
            assert(labels.skip(0) =~= labels);
        }
        let mut i: usize = 0;
        while i < tags.0.len()
            invariant
                i <= labels.len(),
                labels == tags@,
                spec_resolve(labels, *self) == spec_resolve(labels.skip(i as int), *self),
            decreases labels.len() - i,
        {
            proof {
                assert(labels.skip(i as int)[0] == labels[i as int]);
                assert(labels.skip(i as int).skip(1) =~= labels.skip(i + 1 as int));
            }
            match self.override_of(&tags.0[i]) {
                Some(p) => {
                    return (tags.0[i].clone(), p);
                },
                None => {},
            }
            i = i + 1;
        }
        proof {
            assert(labels.skip(labels.len() as int) =~= Seq::<Seq<char>>::empty());
        }
        (String::new(), self.base)
    }

    /// Resolve a tag set to its properties record alone.
    pub fn get(&self, tags: &TagSet) -> (r: Properties)
        ensures
            r == spec_resolve(tags@, *self).1,
    {
        self.get_and_why(tags).1
    }

    /// Record an override for a tag, shadowing any earlier one.
    pub fn insert_override(&mut self, tag: &str, properties: Properties)
        ensures
            spec_override(final(self).tags@, tag@) == Some(properties),
            final(self).base == old(self).base,
            forall|t: Seq<char>|
                t != tag@ ==> spec_override(final(self).tags@, t) == spec_override(
                    old(self).tags@,
                    t,
                ),
            old(self).well_formed() && properties.well_formed() ==> final(self).well_formed(),
    {
        let owned = String::from_str(tag);
        let ghost before = self.tags@;
        self.tags.insert(0, (owned, properties));
        proof {
            assert(self.tags@.skip(1) =~= before);
            assert(self.tags@[0].0@ == tag@ && self.tags@[0].1 == properties);
            assert forall|i: int|
                0 <= i < self.tags@.len() && old(self).well_formed() && properties.well_formed()
                    implies (#[trigger] self.tags@[i]).1.well_formed() by {
                if i > 0 {
                    assert(self.tags@[i] == before[i - 1]);
                }
            }
        }
    }

    /// An exact copy.
    pub fn duplicate(&self) -> (r: Configuration)
        ensures
            r.base == self.base,
            r.tags@.len() == self.tags@.len(),
            forall|i: int|
                0 <= i < self.tags@.len() ==> (#[trigger] r.tags@[i]).0@ == self.tags@[i].0@
                    && r.tags@[i].1 == self.tags@[i].1,
            self.well_formed() ==> r.well_formed(),
            forall|t: Seq<char>| spec_override(r.tags@, t) == spec_override(self.tags@, t),
    {
        let mut out: Vec<(String, Properties)> = Vec::new();
        let mut i: usize = 0;
        while i < self.tags.len()
            invariant
                i <= self.tags@.len(),
                out@.len() == i,
                forall|j: int|
                    0 <= j < i ==> (#[trigger] out@[j]).0@ == self.tags@[j].0@ && out@[j].1
                        == self.tags@[j].1,
            decreases self.tags@.len() - i,
        {
            out.push((self.tags[i].0.clone(), self.tags[i].1));
            i = i + 1;
        }
        let r = Configuration { base: self.base, tags: out };
        proof {
            lemma_override_congruence(r.tags@, self.tags@);
        }
        r
    }
}

/// Two entry sequences whose keys and records agree pairwise record the same
/// overrides.
proof fn lemma_override_congruence(a: Seq<(String, Properties)>, b: Seq<(String, Properties)>)
    requires
        a.len() == b.len(),
        forall|i: int| 0 <= i < a.len() ==> (#[trigger] a[i]).0@ == b[i].0@ && a[i].1 == b[i].1,
    ensures
        forall|t: Seq<char>| spec_override(a, t) == spec_override(b, t),
    decreases a.len(),
{
    if a.len() > 0 {
        assert(a.skip(1).len() == b.skip(1).len());
        assert forall|i: int| 0 <= i < a.skip(1).len() implies (#[trigger] a.skip(1)[i]).0@
            == b.skip(1)[i].0@ && a.skip(1)[i].1 == b.skip(1)[i].1 by {
            assert(a[i + 1].0@ == b[i + 1].0@ && a[i + 1].1 == b[i + 1].1);
        }
        lemma_override_congruence(a.skip(1), b.skip(1));
        assert(a[0].0@ == b[0].0@ && a[0].1 == b[0].1);
        assert forall|t: Seq<char>| spec_override(a, t) == spec_override(b, t) by {
            assert(spec_override(a.skip(1), t) == spec_override(b.skip(1), t));
        }
    }
}

} // verus!
