//! The ordering-constraint set: a deduplicating, insertion-ordered collection
//! of opaque labels, compared by their canonical text rendering.

use vstd::prelude::*;

verus! {

/// An ordering-constraint token.
///
/// `text` is the label's canonical, stable rendering and its sole identity:
/// two labels whose `text` agree are the same constraint, however their
/// display `name` differs.
#[derive(Debug, PartialEq)]
pub struct Label {
    pub text: String,
    pub name: String,
}

impl Label {
    /// An equal copy of this label.
    pub fn duplicate(&self) -> (r: Label)
        ensures
            r == *self,
    {
        Label { text: self.text.clone(), name: self.name.clone() }
    }
}

/// True when some label in `s` renders as `t`.
pub open spec fn has_text(s: Seq<Label>, t: Seq<char>) -> bool {
    exists|i: int| 0 <= i < s.len() && s[i].text@ == t
}

/// No two labels in `s` share a canonical text.
pub open spec fn distinct_texts(s: Seq<Label>) -> bool {
    forall|i: int, j: int| 0 <= i < j < s.len() ==> s[i].text@ != s[j].text@
}

/// What one insertion does: appends the label if its text is new, and reports
/// whether it did.
pub open spec fn add_spec(s: Seq<Label>, l: Label) -> (Seq<Label>, bool) {
    if has_text(s, l.text@) {
        (s, false)
    } else {
        (s.push(l), true)
    }
}

/// What inserting a whole list does, one label at a time, left to right.
pub open spec fn add_all_spec(s: Seq<Label>, ls: Seq<Label>) -> Seq<Label>
    decreases ls.len(),
{
    if ls.len() == 0 {
        s
    } else {
        add_all_spec(add_spec(s, ls[0]).0, ls.drop_first())
    }
}

/// The labels of `s` whose flag in `keep` is set, in order.
pub open spec fn filter_by(s: Seq<Label>, keep: Seq<bool>) -> Seq<Label>
    decreases s.len(),
{
    if s.len() == 0 {
        Seq::empty()
    } else {
        let rest = filter_by(s.drop_first(), keep.drop_first());
        if 0 < keep.len() && keep[0] {
            seq![s[0]] + rest
        } else {
            rest
        }
    }
}

proof fn lemma_filter_by_snoc(s: Seq<Label>, keep: Seq<bool>, x: Label, b: bool)
    requires
        keep.len() == s.len(),
    ensures
        filter_by(s.push(x), keep.push(b)) == filter_by(s, keep) + (if b {
            seq![x]
        } else {
            Seq::<Label>::empty()
        }),
    decreases s.len(),
{
    let tail: Seq<Label> = if b {
        seq![x]
    } else {
        Seq::empty()
    };
    if s.len() == 0 {
        assert(s.push(x).drop_first() =~= Seq::<Label>::empty());
        assert(keep.push(b).drop_first() =~= Seq::<bool>::empty());
        assert(keep.push(b)[0] == b);
        assert(s.push(x)[0] == x);
        assert(filter_by(s.push(x).drop_first(), keep.push(b).drop_first())
            =~= Seq::<Label>::empty());
        assert(filter_by(s, keep) + tail =~= filter_by(s.push(x), keep.push(b)));
    } else {
        assert(s.push(x).drop_first() =~= s.drop_first().push(x));
        assert(keep.push(b).drop_first() =~= keep.drop_first().push(b));
        lemma_filter_by_snoc(s.drop_first(), keep.drop_first(), x, b);
        if keep[0] {
            assert(seq![s[0]] + (filter_by(s.drop_first(), keep.drop_first()) + tail) =~= (
            seq![s[0]] + filter_by(s.drop_first(), keep.drop_first())) + tail);
        }
    }
}

proof fn lemma_filter_by_subset(s: Seq<Label>, keep: Seq<bool>)
    ensures
        forall|j: int|
            0 <= j < filter_by(s, keep).len() ==> exists|i: int|
                0 <= i < s.len() && s[i] == #[trigger] filter_by(s, keep)[j],
    decreases s.len(),
{
    if s.len() > 0 {
        lemma_filter_by_subset(s.drop_first(), keep.drop_first());
        let rest = filter_by(s.drop_first(), keep.drop_first());
        assert forall|j: int| 0 <= j < filter_by(s, keep).len() implies exists|i: int|
            0 <= i < s.len() && s[i] == #[trigger] filter_by(s, keep)[j] by {
            if 0 < keep.len() && keep[0] {
                if j == 0 {
                    assert(s[0] == filter_by(s, keep)[0]);
                } else {
                    let i0 = choose|i0: int|
                        0 <= i0 < s.drop_first().len() && s.drop_first()[i0] == rest[j - 1];
                    assert(s[i0 + 1] == filter_by(s, keep)[j]);
                }
            } else {
                let i0 = choose|i0: int|
                    0 <= i0 < s.drop_first().len() && s.drop_first()[i0] == rest[j];
                assert(s[i0 + 1] == filter_by(s, keep)[j]);
            }
        }
    }
}

proof fn lemma_filter_by_distinct(s: Seq<Label>, keep: Seq<bool>)
    requires
        distinct_texts(s),
    ensures
        distinct_texts(filter_by(s, keep)),
    decreases s.len(),
{
    if s.len() > 0 {
        assert(distinct_texts(s.drop_first()));
        lemma_filter_by_distinct(s.drop_first(), keep.drop_first());
        lemma_filter_by_subset(s.drop_first(), keep.drop_first());
        let r = filter_by(s, keep);
        let rest = filter_by(s.drop_first(), keep.drop_first());
        if 0 < keep.len() && keep[0] {
            assert forall|p: int, q: int| 0 <= p < q < r.len() implies r[p].text@ != r[q].text@ by {
                if p == 0 {
                    let i0 = choose|i0: int|
                        0 <= i0 < s.drop_first().len() && s.drop_first()[i0] == rest[q - 1];
                    assert(s[i0 + 1] == r[q]);
                    assert(s[0].text@ != s[i0 + 1].text@);
                } else {
                    assert(rest[p - 1].text@ != rest[q - 1].text@);
                }
            }
        }
    }
}

/// A deduplicating, insertion-ordered set of before/after labels for a unit
/// of work or a whole workload. Two labels are the same entry exactly when
/// their canonical texts agree.
#[derive(Debug, PartialEq)]
pub struct DedupedLabels {
    items: Vec<Label>,
}

impl DedupedLabels {
    /// The labels held, in first-insertion order.
    pub closed spec fn labels(self) -> Seq<Label> {
        self.items@
    }

    /// The set never holds two labels with the same canonical text.
    pub open spec fn wf(self) -> bool {
        distinct_texts(self.labels())
    }

    /// An empty set.
    pub fn new() -> (r: DedupedLabels)
        ensures
            r.labels() =~= Seq::<Label>::empty(),
            r.wf(),
    {
        DedupedLabels { items: Vec::new() }
    }

    /// An empty set with room for `capacity` labels.
    pub fn with_capacity(capacity: usize) -> (r: DedupedLabels)
        ensures
            r.labels() =~= Seq::<Label>::empty(),
            r.wf(),
    {
        DedupedLabels { items: Vec::with_capacity(capacity) }
    }

    /// Inserts `label` if no held label renders as the same text. Returns
    /// `true` if the label was not already present.
    pub fn add(&mut self, label: Label) -> (r: bool)
        requires
            old(self).wf(),
        ensures
            final(self).wf(),
            r == !has_text(old(self).labels(), label.text@),
            final(self).labels() == add_spec(old(self).labels(), label).0,
            r == add_spec(old(self).labels(), label).1,
    {
        if self.contains(&label) {
            false
        } else {
            proof {
                assert forall|i: int, j: int|
                    0 <= i < j < self.items@.push(label).len() implies self.items@.push(label)[i].text@
                    != self.items@.push(label)[j].text@ by {
                    if j < self.items@.len() {
                        assert(self.items@[i].text@ != self.items@[j].text@);
                    } else {
                        assert(!has_text(self.items@, label.text@));
                        assert(self.items@.push(label)[i] == self.items@[i]);
                    }
                }
            }
            self.items.push(label);
            true
        }
    }

    /// True if a label with the same canonical text is present.
    pub fn contains(&self, label: &Label) -> (r: bool)
        ensures
            r == has_text(self.labels(), label.text@),
    {
        let mut i: usize = 0;
        while i < self.items.len()
            invariant
                i <= self.items.len(),
                forall|k: int| 0 <= k < i ==> self.items@[k].text@ != label.text@,
            decreases self.items.len() - i,
        {
            if self.items[i].text == label.text {
                return true;
            }
            i = i + 1;
        }
        false
    }

    /// True when the set holds no label.
    pub fn is_empty(&self) -> (r: bool)
        ensures
            r == (self.labels().len() == 0),
    {
        self.items.len() == 0
    }

    /// How many labels the set holds.
    pub fn len(&self) -> (r: usize)
        ensures
            r == self.labels().len(),
    {
        self.items.len()
    }

    /// Removes every label.
    pub fn clear(&mut self)
        ensures
            final(self).labels() =~= Seq::<Label>::empty(),
            final(self).wf(),
    {
        self.items.clear();
    }

    /// Copies of the held labels, in first-insertion order.
    pub fn to_vec(&self) -> (r: Vec<Label>)
        ensures
            r@ == self.labels(),
    {
        let mut r: Vec<Label> = Vec::new();
        let mut i: usize = 0;
        while i < self.items.len()
            invariant
                i <= self.items.len(),
                r@ =~= self.labels().take(i as int),
            decreases self.items.len() - i,
        {
            r.push(self.items[i].duplicate());
            i = i + 1;
            proof {
                assert(self.labels().take(i as int) =~= self.labels().take(i - 1).push(
                    self.labels()[i - 1],
                ));
            }
        }
        proof {
            assert(self.labels().take(self.labels().len() as int) =~= self.labels());
        }
        r
    }

    /// The canonical texts of the held labels, in first-insertion order.
    pub fn to_string_vec(&self) -> (r: Vec<String>)
        ensures
            r@.len() == self.labels().len(),
            forall|i: int| 0 <= i < r@.len() ==> #[trigger] r@[i]@ == self.labels()[i].text@,
    {
        let mut r: Vec<String> = Vec::new();
        let mut i: usize = 0;
        while i < self.items.len()
            invariant
                i <= self.items.len(),
                r@.len() == i,
                forall|k: int| 0 <= k < i ==> #[trigger] r@[k]@ == self.labels()[k].text@,
            decreases self.items.len() - i,
        {
            r.push(self.items[i].text.clone());
            i = i + 1;
        }
        r
    }

    /// An iterator over copies of the held labels, in first-insertion order.
    pub fn iter(&self) -> (r: RequirementsIter)
        ensures
            r.labels() == self.labels(),
            r.position() == 0,
    {
        RequirementsIter { items: self.to_vec(), pos: 0 }
    }

    /// Inserts each label of `labels` in turn, deduplicating as `add` does.
    pub fn extend(&mut self, labels: Vec<Label>)
        requires
            old(self).wf(),
        ensures
            final(self).wf(),
            final(self).labels() == add_all_spec(old(self).labels(), labels@),
    {
        let mut labels = labels;
        let ghost all: Seq<Label> = labels@;
        while labels.len() > 0
            invariant
                self.wf(),
                add_all_spec(self.labels(), labels@) == add_all_spec(old(self).labels(), all),
            decreases labels@.len(),
        {
            let ghost before_step = labels@;
            let l = labels.remove(0);
            proof {
                assert(before_step.drop_first() =~= labels@);
            }
            let ghost s0 = self.labels();
            self.add(l);
            proof {
                assert(add_all_spec(s0, before_step) == add_all_spec(self.labels(), labels@));
            }
        }
        proof {
            assert(add_all_spec(self.labels(), labels@) == self.labels());
        }
    }

    /// Keeps exactly the labels for which `f` returns `true`, preserving
    /// first-insertion order; the rest are removed.
    pub fn retain<F: Fn(&Label) -> bool>(&mut self, f: F)
        requires
            old(self).wf(),
            forall|l: Label| call_requires(f, (&l,)),
        ensures
            final(self).wf(),
            exists|keep: Seq<bool>|
                {
                    &&& keep.len() == old(self).labels().len()
                    &&& final(self).labels() == filter_by(old(self).labels(), keep)
                    &&& forall|i: int|
                        0 <= i < keep.len() ==> call_ensures(
                            f,
                            (&old(self).labels()[i],),
                            keep[i],
                        )
                },
    {
        let ghost orig: Seq<Label> = self.items@;
        let ghost mut flags: Seq<bool> = Seq::empty();
        let mut kept: Vec<Label> = Vec::new();
        while self.items.len() > 0
            invariant
                forall|l: Label| call_requires(f, (&l,)),
                flags.len() + self.items@.len() == orig.len(),
                self.items@ =~= orig.skip(flags.len() as int),
                kept@ == filter_by(orig.take(flags.len() as int), flags),
                forall|i: int| 0 <= i < flags.len() ==> call_ensures(f, (&orig[i],), flags[i]),
            decreases self.items@.len(),
        {
            let ghost n = flags.len() as int;
            let l = self.items.remove(0);
            proof {
                assert(l == orig[n]);
                assert(self.items@ =~= orig.skip(n + 1));
            }
            let keep_it = f(&l);
            proof {
                lemma_filter_by_snoc(orig.take(n), flags, l, keep_it);
                flags = flags.push(keep_it);
            }
            if keep_it {
                kept.push(l);
            }
            proof {
                assert(orig.take(n + 1) =~= orig.take(n).push(orig[n]));
                assert(kept@ == filter_by(orig.take(n + 1), flags));
            }
        }
        proof {
            assert(orig.take(orig.len() as int) =~= orig);
            lemma_filter_by_distinct(orig, flags);
        }
        self.items = kept;
    }
}

impl Default for DedupedLabels {
    fn default() -> (r: Self)
        ensures
            r.labels() =~= Seq::<Label>::empty(),
            r.wf(),
    {
        DedupedLabels::new()
    }
}

/// Walks the labels of a [`DedupedLabels`], in first-insertion order.
pub struct RequirementsIter {
    items: Vec<Label>,
    pos: usize,
}

impl RequirementsIter {
    /// The labels this iterator walks.
    pub closed spec fn labels(self) -> Seq<Label> {
        self.items@
    }

    /// How many labels were already handed out.
    pub closed spec fn position(self) -> int {
        self.pos as int
    }

    /// The next label, or `None` once all were handed out.
    pub fn next(&mut self) -> (r: Option<Label>)
        ensures
            final(self).labels() == old(self).labels(),
            old(self).position() < old(self).labels().len() ==> {
                &&& r == Some(old(self).labels()[old(self).position()])
                &&& final(self).position() == old(self).position() + 1
            },
            old(self).position() >= old(self).labels().len() ==> {
                &&& r is None
                &&& final(self).position() == old(self).position()
            },
    {
        if self.pos < self.items.len() {
            let l = self.items[self.pos].duplicate();
            self.pos = self.pos + 1;
            Some(l)
        } else {
            None
        }
    }
}

/// Inserting never reorders what is already held: the label sequence after
/// an insertion is the old sequence unchanged, or the old sequence with the
/// new label appended.
pub proof fn lemma_add_preserves_order(s: Seq<Label>, l: Label)
    ensures
        add_spec(s, l).0 == s || add_spec(s, l).0 == s.push(l),
{
}

/// Inserting two labels with the same canonical text reports the first as new
/// and the second as already present, whatever the labels' display names.
pub proof fn lemma_add_same_text_twice(s: Seq<Label>, l1: Label, l2: Label)
    requires
        l1.text@ == l2.text@,
        !has_text(s, l1.text@),
    ensures
        add_spec(s, l1).1 == true,
        add_spec(add_spec(s, l1).0, l2).1 == false,
{
    let s1 = add_spec(s, l1).0;
    assert(s1[s.len() as int].text@ == l2.text@);
    assert(has_text(s1, l2.text@));
}

} // verus!
