//! Ordered, duplicate-free sets of tag labels.
//!
//! Insertion order is significant: it decides which configuration override
//! wins when a job's tags are resolved.  A second tag set may carry entries
//! marked with a leading or trailing `+` or `-`; such a set is read as a list
//! of add and remove operations against a base set, while an unmarked set
//! replaces the base outright.

use vstd::prelude::*;

verus! {

/// An ordered sequence of distinct tag labels.
#[derive(Debug)]
pub struct TagSet(pub Vec<String>);

/// The character sequences of a sequence of strings.
pub open spec fn labels_of(s: Seq<String>) -> Seq<Seq<char>> {
    Seq::new(s.len(), |i: int| s[i]@)
}

impl View for TagSet {
    type V = Seq<Seq<char>>;

    open spec fn view(&self) -> Seq<Seq<char>> {
        labels_of(self.0@)
    }
}

/// Insert a tag at the back unless it is already present.
pub open spec fn seq_insert_tag(s: Seq<Seq<char>>, t: Seq<char>) -> Seq<Seq<char>> {
    if s.contains(t) {
        s
    } else {
        s.push(t)
    }
}

/// Drop every occurrence of a tag.
pub open spec fn seq_remove_tag(s: Seq<Seq<char>>, t: Seq<char>) -> Seq<Seq<char>> {
    s.filter(|x: Seq<char>| x != t)
}

/// Insert each tag of `ts` in turn.
pub open spec fn seq_insert_all(s: Seq<Seq<char>>, ts: Seq<Seq<char>>) -> Seq<Seq<char>>
    decreases ts.len(),
{
    if ts.len() == 0 {
        s
    } else {
        seq_insert_tag(seq_insert_all(s, ts.drop_last()), ts.last())
    }
}

/// The add or remove operation a modification entry stands for, if it
/// carries a marker.  A `+` marker means add, a `-` marker means remove; a
/// leading marker is looked for before a trailing one, and `+` before `-`.
/// The marker itself is not tag content: the operation carries the entry
/// with the marker stripped.
pub open spec fn tag_instruction(t: Seq<char>) -> Option<(bool, Seq<char>)> {
    if t.len() > 0 && t[0] == '+' {
        Some((true, t.skip(1)))
    } else if t.len() > 0 && t.last() == '+' {
        Some((true, t.take(t.len() - 1)))
    } else if t.len() > 0 && t[0] == '-' {
        Some((false, t.skip(1)))
    } else if t.len() > 0 && t.last() == '-' {
        Some((false, t.take(t.len() - 1)))
    } else {
        None
    }
}

/// Whether any entry of a modification set carries a marker.
pub open spec fn has_instruction(mods: Seq<Seq<char>>) -> bool {
    exists|i: int| 0 <= i < mods.len() && tag_instruction(mods[i]) is Some
}

/// Apply the marked entries of `mods`, in order, against `base`: `+` inserts
/// (if absent), `-` removes, unmarked entries do nothing.
pub open spec fn apply_instructions(base: Seq<Seq<char>>, mods: Seq<Seq<char>>) -> Seq<Seq<char>>
    decreases mods.len(),
{
    if mods.len() == 0 {
        base
    } else {
        let prev = apply_instructions(base, mods.drop_last());
        match tag_instruction(mods.last()) {
            Some(op) => if op.0 {
                seq_insert_tag(prev, op.1)
            } else {
                seq_remove_tag(prev, op.1)
            },
            None => prev,
        }
    }
}

/// What modifying `base` by `mods` yields: the operations applied if any
/// entry carries a marker, the modification set itself (an outright
/// replacement) if none does.
pub open spec fn spec_modify(base: Seq<Seq<char>>, mods: Seq<Seq<char>>) -> Seq<Seq<char>> {
    if has_instruction(mods) {
        apply_instructions(base, mods)
    } else {
        mods
    }
}

/// The labels of the strings a verdict sequence selects, in order.
pub open spec fn mask_labels(s: Seq<String>, verdicts: Seq<bool>) -> Seq<Seq<char>>
    decreases s.len(),
{
    if s.len() == 0 || verdicts.len() == 0 {
        Seq::empty()
    } else {
        let rest = mask_labels(s.drop_last(), verdicts.drop_last());
        if verdicts.last() {
            rest.push(s.last()@)
        } else {
            rest
        }
    }
}

/// Distinctness of the labels of a tag sequence.
pub open spec fn tags_distinct(s: Seq<Seq<char>>) -> bool {
    forall|i: int, j: int| 0 <= i < j < s.len() ==> s[i] != s[j]
}

/// Membership in a pushed sequence is membership in the original or equality
/// with the new element.
proof fn lemma_push_contains(s: Seq<Seq<char>>, t: Seq<char>)
    ensures
        forall|x: Seq<char>| s.push(t).contains(x) <==> s.contains(x) || x == t,
{
    assert forall|x: Seq<char>| s.push(t).contains(x) implies s.contains(x) || x == t by {
        let i = choose|i: int| 0 <= i < s.push(t).len() && s.push(t)[i] == x;
        if i < s.len() {
            assert(s[i] == x);
        }
    }
    assert forall|x: Seq<char>| s.contains(x) || x == t implies s.push(t).contains(x) by {
        if s.contains(x) {
            let i = choose|i: int| 0 <= i < s.len() && s[i] == x;
            assert(s.push(t)[i] == x);
        } else {
            assert(s.push(t)[s.len() as int] == t);
        }
    }
}

proof fn lemma_insert_tag_distinct(s: Seq<Seq<char>>, t: Seq<char>)
    requires
        tags_distinct(s),
    ensures
        tags_distinct(seq_insert_tag(s, t)),
        forall|x: Seq<char>| seq_insert_tag(s, t).contains(x) <==> s.contains(x) || x == t,
{
    if !s.contains(t) {
        lemma_push_contains(s, t);
    }
}

/// Every element a filter keeps is an element of the sequence filtered.
proof fn lemma_filter_subset(s: Seq<Seq<char>>, pred: spec_fn(Seq<char>) -> bool)
    ensures
        forall|i: int| 0 <= i < s.filter(pred).len() ==> s.contains(#[trigger] s.filter(pred)[i]),
    decreases s.len(),
{
    reveal(Seq::filter);
    if s.len() > 0 {
        lemma_filter_subset(s.drop_last(), pred);
        let r = s.filter(pred);
        let rp = s.drop_last().filter(pred);
        assert forall|i: int| 0 <= i < r.len() implies s.contains(#[trigger] r[i]) by {
            if i < rp.len() {
                assert(rp[i] == r[i]);
                assert(s.drop_last().contains(rp[i]));
                let k = choose|k: int|
                    0 <= k < s.drop_last().len() && s.drop_last()[k] == rp[i];
                assert(s[k] == r[i]);
            } else {
                assert(r[i] == s.last());
                assert(s[s.len() - 1] == s.last());
            }
        }
    }
}

/// A filter of a sequence of distinct labels is distinct.
proof fn lemma_filter_distinct(s: Seq<Seq<char>>, pred: spec_fn(Seq<char>) -> bool)
    requires
        tags_distinct(s),
    ensures
        tags_distinct(s.filter(pred)),
    decreases s.len(),
{
    reveal(Seq::filter);
    if s.len() > 0 {
        lemma_filter_distinct(s.drop_last(), pred);
        let r = s.filter(pred);
        let rp = s.drop_last().filter(pred);
        if pred(s.last()) {
            assert forall|i: int, j: int| 0 <= i < j < r.len() implies r[i] != r[j] by {
                if j == r.len() - 1 {
                    assert(r[j] == s.last());
                    assert(r[i] == rp[i]);
                    if r[i] == s.last() {
                        lemma_filter_subset(s.drop_last(), pred);
                        assert(s.drop_last().contains(rp[i]));
                        let k = choose|k: int|
                            0 <= k < s.drop_last().len() && s.drop_last()[k] == rp[i];
                        assert(s[k] == rp[i]);
                        assert(s[s.len() - 1] == s.last());
                        assert(false);
                    }
                } else {
                    assert(r[i] == rp[i] && r[j] == rp[j]);
                }
            }
        }
    }
}

proof fn lemma_apply_instructions_distinct(base: Seq<Seq<char>>, mods: Seq<Seq<char>>)
    requires
        tags_distinct(base),
    ensures
        tags_distinct(apply_instructions(base, mods)),
    decreases mods.len(),
{
    if mods.len() > 0 {
        lemma_apply_instructions_distinct(base, mods.drop_last());
        let prev = apply_instructions(base, mods.drop_last());
        match tag_instruction(mods.last()) {
            Some(op) => if op.0 {
                lemma_insert_tag_distinct(prev, op.1);
            } else {
                lemma_filter_distinct(prev, |x: Seq<char>| x != op.1);
            },
            None => {},
        }
    }
}

/// Filtering a pushed sequence filters the push.
proof fn lemma_filter_push(s: Seq<Seq<char>>, pred: spec_fn(Seq<char>) -> bool, x: Seq<char>)
    ensures
        s.push(x).filter(pred) == if pred(x) {
            s.filter(pred).push(x)
        } else {
            s.filter(pred)
        },
{
    reveal(Seq::filter);
    assert(s.push(x).drop_last() =~= s);
    assert(s.push(x).last() == x);
}

/// The labels of a pushed string sequence are the labels plus the pushed
/// string's characters.
proof fn lemma_labels_push(s: Seq<String>, x: String)
    ensures
        labels_of(s.push(x)) == labels_of(s).push(x@),
{
    assert(labels_of(s.push(x)) =~= labels_of(s).push(x@));
}


/// Equality of two strings, by their characters.
pub(crate) fn string_eq(a: &String, b: &String) -> (r: bool)
    ensures
        r == (a@ == b@),
{
    *a == *b
}

impl TagSet {
    /// The labels are distinct.
    pub open spec fn well_formed(self) -> bool {
        tags_distinct(self@)
    }

    /// The empty tag set.
    pub fn new() -> (r: TagSet)
        ensures
            r@ =~= Seq::<Seq<char>>::empty(),
            r.well_formed(),
    {
        TagSet(Vec::new())
    }

    /// A tag set from a list of labels, duplicates collapsed to their first
    /// occurrence.
    pub fn from_vec(tags: Vec<String>) -> (r: TagSet)
        ensures
            r@ == seq_insert_all(Seq::<Seq<char>>::empty(), labels_of(tags@)),
            r.well_formed(),
    {
        let mut r = TagSet::new();
        r.insert_many(tags);
        r
    }

    /// A tag set from an optional list of labels, duplicates collapsed;
    /// nothing from nothing.
    pub fn from_option_vec(tags: Option<Vec<String>>) -> (r: Option<TagSet>)
        ensures
            match (tags, r) {
                (Some(ts), Some(s)) => s@ == seq_insert_all(
                    Seq::<Seq<char>>::empty(),
                    labels_of(ts@),
                ) && s.well_formed(),
                (None, None) => true,
                _ => false,
            },
    {
        match tags {
            Some(ts) => Some(TagSet::from_vec(ts)),
            None => None,
        }
    }

    /// An exact copy.
    pub fn duplicate(&self) -> (r: TagSet)
        ensures
            r@ == self@,
    {
        let mut out: Vec<String> = Vec::new();
        let mut i: usize = 0;
        while i < self.0.len()
            invariant
                i <= self.0@.len(),
                out@.len() == i,
                forall|j: int| 0 <= j < i ==> out@[j]@ == self.0@[j]@,
            decreases self.0@.len() - i,
        {
            out.push(self.0[i].clone());
            i = i + 1;
        }
        let r = TagSet(out);
        proof {
            assert(r@ =~= self@);
        }
        r
    }

    /// Number of tags.
    pub fn len(&self) -> (r: usize)
        ensures
            r == self@.len(),
    {
        self.0.len()
    }

    /// Whether the set has no tags.
    pub fn is_empty(&self) -> (r: bool)
        ensures
            r == (self@.len() == 0),
    {
        self.0.is_empty()
    }

    /// The labels, in order.
    pub fn iter(&self) -> (r: &Vec<String>)
        ensures
            labels_of(r@) == self@,
    {
        &self.0
    }

    /// Whether a label is present.
    pub fn contains(&self, tag: &String) -> (r: bool)
        ensures
            r == self@.contains(tag@),
    {
        let mut i: usize = 0;
        while i < self.0.len()
            invariant
                i <= self.0@.len(),
                forall|j: int| 0 <= j < i ==> self@[j] != tag@,
            decreases self.0@.len() - i,
        {
            if string_eq(&self.0[i], tag) {
                assert(self@[i as int] == tag@);
                return true;
            }
            i = i + 1;
        }
        false
    }

    /// Append a label unless it is already present; reports whether the set
    /// grew.
    pub fn insert(&mut self, tag: &str) -> (r: bool)
        ensures
            final(self)@ == seq_insert_tag(old(self)@, tag@),
            r == !old(self)@.contains(tag@),
            old(self).well_formed() ==> final(self).well_formed(),
    {
        let owned = String::from_str(tag);
        if self.contains(&owned) {
            false
        } else {
            proof {
                if old(self).well_formed() {
                    lemma_insert_tag_distinct(self@, tag@);
                }
                lemma_labels_push(self.0@, owned);
            }
            self.0.push(owned);
            true
        }
    }

    /// Insert each of the given labels in turn.
    pub fn insert_many(&mut self, tags: Vec<String>)
        ensures
            final(self)@ == seq_insert_all(old(self)@, labels_of(tags@)),
            old(self).well_formed() ==> final(self).well_formed(),
    {
        let ghost all = labels_of(tags@);
        let mut i: usize = 0;
        while i < tags.len()
            invariant
                i <= all.len(),
                all == labels_of(tags@),
                self@ == seq_insert_all(old(self)@, all.take(i as int)),
                old(self).well_formed() ==> self.well_formed(),
            decreases all.len() - i,
        {
            self.insert(tags[i].as_str());
            proof {
                assert(all.take(i + 1 as int).drop_last() =~= all.take(i as int));
                assert(all.take(i + 1 as int).last() == all[i as int]);
            }
            i = i + 1;
        }
        proof {
            assert(all.take(all.len() as int) =~= all);
        }
    }

    /// Drop every occurrence of a label.
    pub fn remove(&mut self, tag: &str)
        ensures
            final(self)@ == seq_remove_tag(old(self)@, tag@),
            old(self).well_formed() ==> final(self).well_formed(),
    {
        let ghost pred = |x: Seq<char>| x != tag@;
        let owned = String::from_str(tag);
        let mut out: Vec<String> = Vec::new();
        let mut i: usize = 0;
        while i < self.0.len()
            invariant
                i <= self.0@.len(),
                owned@ == tag@,
                pred == (|x: Seq<char>| x != tag@),
                labels_of(out@) == self@.take(i as int).filter(pred),
            decreases self.0@.len() - i,
        {
            proof {
                assert(self@.take(i + 1 as int) =~= self@.take(i as int).push(self@[i as int]));
                lemma_filter_push(self@.take(i as int), pred, self@[i as int]);
            }
            if !string_eq(&self.0[i], &owned) {
                proof {
                    lemma_labels_push(out@, self.0@[i as int]);
                }
                out.push(self.0[i].clone());
            }
            i = i + 1;
        }
        proof {
            assert(self@.take(self.0@.len() as int) =~= self@);
            if old(self).well_formed() {
                lemma_filter_distinct(self@, pred);
            }
        }
        self.0 = out;
    }

    /// Keep exactly the labels the predicate accepts, in their original
    /// order: some sequence of the predicate's verdicts, one per label,
    /// selects the result.
    pub fn filter<P: Fn(&String) -> bool>(&self, pred: P) -> (r: TagSet)
        requires
            forall|t: &String| call_requires(pred, (t,)),
        ensures
            exists|verdicts: Seq<bool>|
                {
                    &&& verdicts.len() == self.0@.len()
                    &&& (forall|j: int|
                        0 <= j < verdicts.len() ==> call_ensures(
                            pred,
                            (&self.0@[j],),
                            #[trigger] verdicts[j],
                        ))
                    &&& r@ == mask_labels(self.0@, verdicts)
                },
            forall|t: Seq<char>| r@.contains(t) ==> self@.contains(t),
            self.well_formed() ==> r.well_formed(),
    {
        let mut out: Vec<String> = Vec::new();
        let ghost mut verdicts: Seq<bool> = Seq::empty();
        let mut i: usize = 0;
        while i < self.0.len()
            invariant
                i <= self.0@.len(),
                forall|t: &String| call_requires(pred, (t,)),
                verdicts.len() == i,
                forall|j: int|
                    0 <= j < i ==> call_ensures(pred, (&self.0@[j],), #[trigger] verdicts[j]),
                labels_of(out@) == mask_labels(self.0@.take(i as int), verdicts),
                forall|t: Seq<char>| labels_of(out@).contains(t) ==> exists|j: int|
                    0 <= j < i && self@[j] == t,
                tags_distinct(self@) ==> tags_distinct(labels_of(out@)),
            decreases self.0@.len() - i,
        {
            let keep = pred(&self.0[i]);
            proof {
                assert(self.0@.take(i + 1 as int).drop_last() =~= self.0@.take(i as int));
                assert(self.0@.take(i + 1 as int).last() == self.0@[i as int]);
                assert(verdicts.push(keep).drop_last() =~= verdicts);
            }
            if keep {
                let ghost pre = labels_of(out@);
                proof {
                    lemma_push_contains(pre, self@[i as int]);
                    if tags_distinct(self@) && pre.contains(self@[i as int]) {
                        let j = choose|j: int| 0 <= j < i && self@[j] == self@[i as int];
                        assert(false);
                    }
                    lemma_labels_push(out@, self.0@[i as int]);
                }
                out.push(self.0[i].clone());
                proof {
                    assert(labels_of(out@) == pre.push(self@[i as int]));
                    assert forall|t: Seq<char>| labels_of(out@).contains(t) implies exists|j: int|
                        0 <= j < i + 1 && self@[j] == t by {
                        if pre.contains(t) {
                            let j = choose|j: int| 0 <= j < i && self@[j] == t;
                            assert(0 <= j < i + 1 && self@[j] == t);
                        } else {
                            assert(self@[i as int] == t);
                        }
                    }
                }
            }
            proof {
                verdicts = verdicts.push(keep);
            }
            i = i + 1;
        }
        proof {
            assert(self.0@.take(self.0@.len() as int) =~= self.0@);
        }
        let r = TagSet(out);
        assert forall|t: Seq<char>| r@.contains(t) implies self@.contains(t) by {
            let j = choose|j: int| 0 <= j < i && self@[j] == t;
            assert(self@[j] == t);
        }
        r
    }

    /// Modify this set by a second one: entries of the second set marked
    /// with `+` or `-` are applied against this set as insertions and
    /// removals; a second set without any marker replaces this one outright.
    pub fn modify(&self, modification: &TagSet) -> (r: TagSet)
        ensures
            r@ == spec_modify(self@, modification@),
            self.well_formed() && modification.well_formed() ==> r.well_formed(),
    {
        let mut any: bool = false;
        let mut i: usize = 0;
        while i < modification.0.len()
            invariant
                i <= modification.0@.len(),
                any == exists|j: int| 0 <= j < i && tag_instruction(modification@[j]) is Some,
            decreases modification.0@.len() - i,
        {
            if instruction_of(&modification.0[i]).is_some() {
                any = true;
                assert(tag_instruction(modification@[i as int]) is Some);
            }
            i = i + 1;
        }
        if !any {
            return modification.duplicate();
        }
        let mut out = self.duplicate();
        let ghost mods = modification@;
        let mut k: usize = 0;
        while k < modification.0.len()
            invariant
                k <= mods.len(),
                mods == modification@,
                out@ == apply_instructions(self@, mods.take(k as int)),
                self.well_formed() ==> out.well_formed(),
            decreases mods.len() - k,
        {
            proof {
                assert(mods.take(k + 1 as int).drop_last() =~= mods.take(k as int));
                assert(mods.take(k + 1 as int).last() == mods[k as int]);
            }
            match instruction_of(&modification.0[k]) {
                Some(op) => {
                    if op.0 {
                        out.insert(op.1.as_str());
                    } else {
                        out.remove(op.1.as_str());
                    }
                },
                None => {},
            }
            k = k + 1;
        }
        proof {
            assert(mods.take(mods.len() as int) =~= mods);
        }
        out
    }
}

/// The add or remove operation a modification entry stands for, executable
/// form: the flag is true for add, and the string is the entry with its
/// marker stripped.
fn instruction_of(t: &String) -> (r: Option<(bool, String)>)
    ensures
        match tag_instruction(t@) {
            Some(op) => r is Some && r.unwrap().0 == op.0 && r.unwrap().1@ == op.1,
            None => r is None,
        },
{
    let s = t.as_str();
    let n = s.unicode_len();
    if n == 0 {
        return None;
    }
    let first = s.get_char(0);
    let last = s.get_char(n - 1);
    if first == '+' {
        Some((true, String::from_str(s.substring_char(1, n))))
    } else if last == '+' {
        Some((true, String::from_str(s.substring_char(0, n - 1))))
    } else if first == '-' {
        Some((false, String::from_str(s.substring_char(1, n))))
    } else if last == '-' {
        Some((false, String::from_str(s.substring_char(0, n - 1))))
    } else {
        None
    }
}

} // verus!

verus! {

impl TagSet {
    /// The position of a label in the set, if present: the first index that
    /// carries it.  Display slots (one per tag, in index order) come from
    /// this on the ledger's tag index.
    pub fn position(&self, tag: &String) -> (r: Option<usize>)
        ensures
            match r {
                Some(i) => i < self@.len() && self@[i as int] == tag@ && forall|j: int|
                    0 <= j < i ==> self@[j] != tag@,
                None => !self@.contains(tag@),
            },
    {
        let mut i: usize = 0;
        while i < self.0.len()
            invariant
                i <= self.0@.len(),
                forall|j: int| 0 <= j < i ==> self@[j] != tag@,
            decreases self.0@.len() - i,
        {
            if string_eq(&self.0[i], tag) {
                return Some(i);
            }
            i = i + 1;
        }
        proof {
            if self@.contains(tag@) {
                let j = choose|j: int| 0 <= j < self@.len() && self@[j] == tag@;
                assert(false);
            }
        }
        None
    }
}

} // verus!
