//! Deterministic group distribution: the subject's enrolled students are
//! sorted by full name (byte order of the UTF-8 names, enrollment order on
//! ties) and dealt the flattened block list of the balanced group sizes.

use vstd::prelude::*;
use vstd::multiset::Multiset;
use vstd::seq_lib::group_to_multiset_ensures;
use vstd::utf8::encode_utf8;

use crate::groups::{block_assign, count_val, group_sizes_seq, groups, lemma_block_assign_range,
    lemma_block_assign_total};
use crate::models::{StudentSubject, User};
use crate::seqs::lemma_filter_push;
use crate::store::{enrolled, has_subject, has_user_id, Store};

verus! {

/// Byte-wise lexicographic order.
pub open spec fn lex_leq(a: Seq<u8>, b: Seq<u8>) -> bool
    decreases a.len(),
{
    if a.len() == 0 {
        true
    } else if b.len() == 0 {
        false
    } else if a[0] < b[0] {
        true
    } else if a[0] > b[0] {
        false
    } else {
        lex_leq(a.drop_first(), b.drop_first())
    }
}

/// Any two byte strings compare one way or the other.
pub proof fn lemma_lex_total(a: Seq<u8>, b: Seq<u8>)
    ensures
        lex_leq(a, b) || lex_leq(b, a),
    decreases a.len(),
{
    if a.len() != 0 && b.len() != 0 && a[0] == b[0] {
        lemma_lex_total(a.drop_first(), b.drop_first());
    }
}

/// The lexicographic order is transitive.
pub proof fn lemma_lex_trans(a: Seq<u8>, b: Seq<u8>, c: Seq<u8>)
    requires
        lex_leq(a, b),
        lex_leq(b, c),
    ensures
        lex_leq(a, c),
    decreases a.len(),
{
    if a.len() != 0 && b.len() != 0 && c.len() != 0 && a[0] == b[0] && b[0] == c[0] {
        lemma_lex_trans(a.drop_first(), b.drop_first(), c.drop_first());
    }
}

/// Two byte strings below each other are equal.
pub proof fn lemma_lex_antisym(a: Seq<u8>, b: Seq<u8>)
    requires
        lex_leq(a, b),
        lex_leq(b, a),
    ensures
        a == b,
    decreases a.len(),
{
    if a.len() != 0 && b.len() != 0 && a[0] == b[0] {
        lemma_lex_antisym(a.drop_first(), b.drop_first());
        assert(a =~= seq![a[0]] + a.drop_first());
        assert(b =~= seq![b[0]] + b.drop_first());
    }
}

/// The combined sort order of the distribution: full-name key first, the
/// enrollment-row position as the tie break.
pub open spec fn tri_le(a: (Vec<u8>, u32, usize), b: (Vec<u8>, u32, usize)) -> bool {
    if a.0@ == b.0@ {
        a.2 <= b.2
    } else {
        lex_leq(a.0@, b.0@)
    }
}

proof fn lemma_tri_total(a: (Vec<u8>, u32, usize), b: (Vec<u8>, u32, usize))
    ensures
        tri_le(a, b) || tri_le(b, a),
{
    lemma_lex_total(a.0@, b.0@);
}

proof fn lemma_tri_trans(a: (Vec<u8>, u32, usize), b: (Vec<u8>, u32, usize), c: (Vec<u8>, u32, usize))
    requires
        tri_le(a, b),
        tri_le(b, c),
    ensures
        tri_le(a, c),
{
    if a.0@ == b.0@ {
        if b.0@ != c.0@ {
            assert(a.0@ != c.0@);
        }
    } else if b.0@ == c.0@ {
        assert(a.0@ != c.0@);
    } else {
        lemma_lex_trans(a.0@, b.0@, c.0@);
        if a.0@ == c.0@ {
            lemma_lex_antisym(a.0@, b.0@);
        }
    }
}

fn lex_le_from(a: &Vec<u8>, b: &Vec<u8>, i: usize) -> (r: bool)
    requires
        i <= a@.len(),
        i <= b@.len(),
    ensures
        r == lex_leq(a@.skip(i as int), b@.skip(i as int)),
    decreases a@.len() - i,
{
    if i == a.len() {
        return true;
    }
    if i == b.len() {
        proof {
            assert(a@.skip(i as int).len() != 0);
        }
        return false;
    }
    proof {
        assert(a@.skip(i as int)[0] == a@[i as int]);
        assert(b@.skip(i as int)[0] == b@[i as int]);
        assert(a@.skip(i as int).drop_first() =~= a@.skip((i + 1) as int));
        assert(b@.skip(i as int).drop_first() =~= b@.skip((i + 1) as int));
    }
    if a[i] < b[i] {
        true
    } else if a[i] > b[i] {
        false
    } else {
        lex_le_from(a, b, i + 1)
    }
}

/// Whether `a` comes before `b` (or ties) in byte order.
pub fn lex_le(a: &Vec<u8>, b: &Vec<u8>) -> (r: bool)
    ensures
        r == lex_leq(a@, b@),
{
    proof {
        assert(a@.skip(0) =~= a@);
        assert(b@.skip(0) =~= b@);
    }
    lex_le_from(a, b, 0)
}

/// Whether `a` comes before `b` (or ties) in the combined order.
fn tri_le_fn(a: &(Vec<u8>, u32, usize), b: &(Vec<u8>, u32, usize)) -> (r: bool)
    ensures
        r == tri_le(*a, *b),
{
    let ab = lex_le(&a.0, &b.0);
    let ba = lex_le(&b.0, &a.0);
    if ab && ba {
        proof {
            lemma_lex_antisym(a.0@, b.0@);
        }
        a.2 <= b.2
    } else {
        proof {
            if a.0@ == b.0@ {
                lemma_lex_total(a.0@, a.0@);
            }
        }
        ab
    }
}

/// The student ids enrolled in a subject, in table order.
pub open spec fn enrolled_ids(ss: Seq<StudentSubject>, sid: u32) -> Seq<u32> {
    ss.filter(|r: StudentSubject| r.subject_id == sid).map_values(
        |r: StudentSubject| r.student_id,
    )
}

/// The sort key of a user: the UTF-8 bytes of the full name.
pub open spec fn name_key(users: Seq<User>, id: u32) -> Seq<u8> {
    if has_user_id(users, id) {
        let w = choose|i: int| 0 <= i < users.len() && users[i].id == id;
        encode_utf8(users[w].full_name_view())
    } else {
        Seq::empty()
    }
}

/// Triples of sort key, student id and enrollment-row position, ordered by
/// key with the position as the tie break.
pub open spec fn sorted_pairs(s: Seq<(Vec<u8>, u32, usize)>) -> bool {
    forall|a: int, b: int| 0 <= a < b < s.len() ==> tri_le(#[trigger] s[a], #[trigger] s[b])
}

/// The student ids of a triple sequence.
pub open spec fn pair_ids(s: Seq<(Vec<u8>, u32, usize)>) -> Seq<u32> {
    s.map_values(|p: (Vec<u8>, u32, usize)| p.1)
}

/// The enrollment row of the student within the subject.
pub open spec fn enrolled_row(ss: Seq<StudentSubject>, sid: u32, student: u32) -> int {
    choose|i: int|
        0 <= i < ss.len() && ss[i].subject_id == sid && ss[i].student_id == student
}

fn sort_pairs(v: Vec<(Vec<u8>, u32, usize)>) -> (r: Vec<(Vec<u8>, u32, usize)>)
    ensures
        sorted_pairs(r@),
        r@.to_multiset() == v@.to_multiset(),
        pair_ids(r@).to_multiset() == pair_ids(v@).to_multiset(),
{
    broadcast use group_to_multiset_ensures, vstd::multiset::group_multiset_axioms;

    let mut remaining = v;
    let mut out: Vec<(Vec<u8>, u32, usize)> = Vec::new();
    let ghost orig = remaining@;
    proof {
        assert(out@.to_multiset().add(remaining@.to_multiset()) =~= orig.to_multiset());
        assert(pair_ids(out@).to_multiset().add(pair_ids(remaining@).to_multiset()) =~= pair_ids(
            orig,
        ).to_multiset());
    }
    while remaining.len() > 0
        invariant
            sorted_pairs(out@),
            forall|a: int, b: int|
                0 <= a < out@.len() && 0 <= b < remaining@.len() ==> tri_le(
                    #[trigger] out@[a],
                    #[trigger] remaining@[b],
                ),
            out@.to_multiset().add(remaining@.to_multiset()) == orig.to_multiset(),
            pair_ids(out@).to_multiset().add(pair_ids(remaining@).to_multiset()) == pair_ids(
                orig,
            ).to_multiset(),
        decreases remaining@.len(),
    {
        let mut m: usize = 0;
        let mut x: usize = 1;
        proof {
            lemma_tri_total(remaining@[0], remaining@[0]);
        }
        while x < remaining.len()
            invariant
                m < x <= remaining@.len() || (m == 0 && x <= remaining@.len()),
                m < remaining@.len(),
                forall|y: int| 0 <= y < x ==> tri_le(remaining@[m as int], #[trigger] remaining@[y]),
            decreases remaining@.len() - x,
        {
            if !tri_le_fn(&remaining[m], &remaining[x]) {
                proof {
                    lemma_tri_total(remaining@[m as int], remaining@[x as int]);
                    assert forall|y: int| 0 <= y < x + 1 implies tri_le(
                        remaining@[x as int],
                        #[trigger] remaining@[y],
                    ) by {
                        if y < x {
                            lemma_tri_trans(
                                remaining@[x as int],
                                remaining@[m as int],
                                remaining@[y],
                            );
                        } else if y == x {
                            lemma_tri_total(remaining@[x as int], remaining@[x as int]);
                        }
                    }
                }
                m = x;
            }
            x = x + 1;
        }
        let ghost rem0 = remaining@;
        let picked = remaining.remove(m);
        proof {
            assert(picked == rem0[m as int]);
            assert(pair_ids(remaining@) =~= pair_ids(rem0).remove(m as int));
            assert(pair_ids(rem0).remove(m as int).to_multiset() =~= pair_ids(
                rem0,
            ).to_multiset().remove(pair_ids(rem0)[m as int]));
            assert forall|b: int| 0 <= b < remaining@.len() implies tri_le(
                picked,
                #[trigger] remaining@[b],
            ) by {
                if b < m as int {
                    assert(remaining@[b] == rem0[b]);
                } else {
                    assert(remaining@[b] == rem0[b + 1]);
                }
            }
        }
        let ghost out0 = out@;
        out.push(picked);
        proof {
            assert(out@.drop_last() =~= out0);
            assert(pair_ids(out@) =~= pair_ids(out0).push(picked.1));
            assert(pair_ids(rem0).contains(pair_ids(rem0)[m as int]));
            assert(pair_ids(rem0).to_multiset().count(picked.1) > 0);
            assert(pair_ids(out@).to_multiset().add(pair_ids(remaining@).to_multiset())
                =~= pair_ids(orig).to_multiset());
            assert(rem0.contains(rem0[m as int]));
            assert(rem0.to_multiset().count(picked) > 0);
            assert(out@.to_multiset().add(remaining@.to_multiset()) =~= orig.to_multiset());
        }
    }
    proof {
        assert(remaining@.to_multiset() =~= Multiset::<(Vec<u8>, u32, usize)>::empty());
        assert(pair_ids(remaining@) =~= Seq::<u32>::empty());
        assert(out@.to_multiset() =~= orig.to_multiset());
        assert(pair_ids(out@).to_multiset() =~= pair_ids(orig).to_multiset());
    }
    out
}

proof fn lemma_ss_index_bound(s: Seq<StudentSubject>, i: int)
    requires
        forall|a: int, b: int| 0 <= a < b < s.len() ==> s[a].id < s[b].id,
        0 <= i < s.len(),
    ensures
        s[i].id >= i,
    decreases i,
{
    if i > 0 {
        lemma_ss_index_bound(s, i - 1);
        assert(s[i - 1].id < s[i].id);
    }
}

impl Store {
    /// The position of the enrollment row for this pair, if any.
    fn enrollment_pos(&self, subject_id: u32, student_id: u32) -> (r: Option<usize>)
        ensures
            r matches Some(j) ==> j < self.subjects_students@.len()
                && self.subjects_students@[j as int].subject_id == subject_id
                && self.subjects_students@[j as int].student_id == student_id,
            r is None ==> !enrolled(self.subjects_students@, subject_id, student_id),
    {
        let mut i: usize = 0;
        while i < self.subjects_students.len()
            invariant
                i <= self.subjects_students@.len(),
                forall|j: int|
                    0 <= j < i ==> !(self.subjects_students@[j].subject_id == subject_id
                        && self.subjects_students@[j].student_id == student_id),
            decreases self.subjects_students@.len() - i,
        {
            if self.subjects_students[i].subject_id == subject_id
                && self.subjects_students[i].student_id == student_id {
                return Some(i);
            }
            i = i + 1;
        }
        None
    }

    /// Reassigns every enrolled student of the subject to a group: students
    /// are taken in full-name order — ties broken by enrollment-row position,
    /// so the order is a function of the enrollment alone — and dealt the
    /// flattened block list of the balanced group sizes: for sizes `[2, 1]`
    /// the first two sorted names land in group zero and the last in group
    /// one. Re-running the distribution on the same enrollment and group
    /// count reproduces the same grouping.
    pub fn distribute_subject_groups(&mut self, subject_id: u32)
        requires
            old(self).wf(),
            has_subject(old(self).subjects@, subject_id),
            forall|i: int|
                0 <= i < old(self).subjects_students@.len()
                    && (#[trigger] old(self).subjects_students@[i]).subject_id == subject_id
                    ==> has_user_id(old(self).users@, old(self).subjects_students@[i].student_id),
        ensures
            final(self).wf(),
            Store::same_but_student_rows(*old(self), *final(self)),
            final(self).next_subject_students_id == old(self).next_subject_students_id,
            final(self).dirty,
            final(self).subjects_students@.len() == old(self).subjects_students@.len(),
            forall|i: int|
                0 <= i < old(self).subjects_students@.len()
                    && (#[trigger] old(self).subjects_students@[i]).subject_id != subject_id
                    ==> final(self).subjects_students@[i] == old(self).subjects_students@[i],
            forall|i: int|
                0 <= i < old(self).subjects_students@.len() ==> final(self).subjects_students@[i] == (StudentSubject {
                    group_number: final(self).subjects_students@[i].group_number,
                    ..old(self).subjects_students@[i]
                }),
            exists|ord: Seq<u32>|
                #![trigger ord.to_multiset()]
                ord.to_multiset() == enrolled_ids(old(self).subjects_students@, subject_id).to_multiset()
                    && (forall|a: int, b: int|
                    0 <= a < b < ord.len() ==> lex_leq(
                        name_key(old(self).users@, ord[a]),
                        name_key(old(self).users@, ord[b]),
                    )) && (forall|a: int, b: int|
                    0 <= a < b < ord.len() && name_key(old(self).users@, ord[a]) == name_key(
                        old(self).users@,
                        ord[b],
                    ) ==> enrolled_row(old(self).subjects_students@, subject_id, ord[a])
                        < enrolled_row(old(self).subjects_students@, subject_id, ord[b])) && (
                forall|t: int, i: int|
                    0 <= t < ord.len() && 0 <= i < final(self).subjects_students@.len() && final(self).subjects_students@[i].subject_id == subject_id && final(self).subjects_students@[i].student_id == ord[t] ==> final(self).subjects_students@[i].group_number == block_assign(
                        group_sizes_seq(
                            ord.len() as int,
                            subject_group_count(old(self).subjects@, subject_id) as int,
                        ),
                        0,
                    )[t]),
            forall|i: int|
                0 <= i < final(self).subjects_students@.len() && (#[trigger] final(self).subjects_students@[i]).subject_id == subject_id ==> final(self).subjects_students@[i].group_number < subject_group_count(old(self).subjects@, subject_id),
    {
        broadcast use group_to_multiset_ensures;

        let group_count = match self.subject_get(subject_id) {
            Some(s) => s.group_count,
            None => {
                proof {
                    assert(false);
                }
                1
            },
        };
        proof {
            let v = choose|v: int|
                0 <= v < self.subjects@.len() && self.subjects@[v].id == subject_id;
            let sres_row = choose|i: int|
                0 <= i < self.subjects@.len() && self.subjects@[i].id == subject_id;
            assert(subject_group_count(self.subjects@, subject_id) >= 1);
            assert forall|a: int, b: int|
                0 <= a < self.subjects@.len() && 0 <= b < self.subjects@.len()
                    && #[trigger] self.subjects@[a].id
                    == #[trigger] self.subjects@[b].id implies a == b by {
                if a < b {
                    assert(self.subjects@[a].id < self.subjects@[b].id);
                } else if b < a {
                    assert(self.subjects@[b].id < self.subjects@[a].id);
                }
            }
            assert(group_count == subject_group_count(self.subjects@, subject_id));
        }
        let ghost pred = |r: StudentSubject| r.subject_id == subject_id;
        let mut pairs: Vec<(Vec<u8>, u32, usize)> = Vec::new();
        let mut k: usize = 0;
        while k < self.subjects_students.len()
            invariant
                *self == *old(self),
                self.wf(),
                forall|i: int|
                    0 <= i < self.subjects_students@.len()
                        && (#[trigger] self.subjects_students@[i]).subject_id == subject_id
                        ==> has_user_id(self.users@, self.subjects_students@[i].student_id),
                k <= self.subjects_students@.len(),
                pred == (|r: StudentSubject| r.subject_id == subject_id),
                pair_ids(pairs@) == self.subjects_students@.subrange(0, k as int).filter(
                    pred,
                ).map_values(|r: StudentSubject| r.student_id),
                forall|i: int|
                    0 <= i < pairs@.len() ==> (#[trigger] pairs@[i]).0@ == name_key(
                        self.users@,
                        pairs@[i].1,
                    ) && pairs@[i].2 == enrolled_row(
                        self.subjects_students@,
                        subject_id,
                        pairs@[i].1,
                    ) && enrolled(self.subjects_students@, subject_id, pairs@[i].1),
            decreases self.subjects_students@.len() - k,
        {
            let row = self.subjects_students[k];
            proof {
                let prefix = self.subjects_students@.subrange(0, k as int);
                lemma_filter_push(prefix, self.subjects_students@[k as int], pred);
                assert(self.subjects_students@.subrange(0, (k + 1) as int) =~= prefix.push(
                    self.subjects_students@[k as int],
                ));
                if pred(self.subjects_students@[k as int]) {
                    assert(prefix.push(self.subjects_students@[k as int]).filter(pred).map_values(
                        |r: StudentSubject| r.student_id,
                    ) =~= prefix.filter(pred).map_values(|r: StudentSubject| r.student_id).push(
                        row.student_id,
                    ));
                }
            }
            if row.subject_id == subject_id {
                let j = match self.user_pos(row.student_id) {
                    Some(j) => j,
                    None => {
                        proof {
                            assert(false);
                        }
                        0
                    },
                };
                let fname = self.users[j].full_name();
                let key = fname.as_str().as_bytes_vec();
                proof {
                    let w = choose|i: int|
                        0 <= i < self.users@.len() && self.users@[i].id == row.student_id;
                    if w != j as int {
                        assert(self.users@[w].id != self.users@[j as int].id);
                    }
                    assert(key@ == name_key(self.users@, row.student_id));
                }
                proof {
                    assert forall|w: int|
                        0 <= w < self.subjects_students@.len()
                            && (#[trigger] self.subjects_students@[w]).subject_id == subject_id
                            && self.subjects_students@[w].student_id == row.student_id implies w
                        == k as int by {
                        if w != k as int {
                            assert(!(self.subjects_students@[w].subject_id
                                == self.subjects_students@[k as int].subject_id
                                && self.subjects_students@[w].student_id
                                == self.subjects_students@[k as int].student_id));
                        }
                    }
                    assert(enrolled_row(self.subjects_students@, subject_id, row.student_id)
                        == k as int);
                    assert(enrolled(self.subjects_students@, subject_id, row.student_id));
                }
                pairs.push((key, row.student_id, k));
                proof {
                    assert(pair_ids(pairs@) =~= pair_ids(pairs@.drop_last()).push(row.student_id));
                }
            }
            k = k + 1;
        }
        proof {
            assert(self.subjects_students@.subrange(0, self.subjects_students@.len() as int)
                =~= self.subjects_students@);
        }
        let sorted = sort_pairs(pairs);
        let ghost ord = pair_ids(sorted@);
        proof {
            assert(ord.to_multiset() == enrolled_ids(self.subjects_students@, subject_id).to_multiset());
            assert forall|a: int, b: int| 0 <= a < b < ord.len() implies lex_leq(
                name_key(self.users@, ord[a]),
                name_key(self.users@, ord[b]),
            ) by {
                assert(sorted@.to_multiset().count(sorted@[a]) > 0);
                assert(pairs@.to_multiset().count(sorted@[a]) > 0);
                assert(pairs@.contains(sorted@[a]));
                let wa = choose|w: int| 0 <= w < pairs@.len() && pairs@[w] == sorted@[a];
                assert(sorted@.to_multiset().count(sorted@[b]) > 0);
                assert(pairs@.to_multiset().count(sorted@[b]) > 0);
                assert(pairs@.contains(sorted@[b]));
                let wb = choose|w: int| 0 <= w < pairs@.len() && pairs@[w] == sorted@[b];
                assert(sorted@[a].0@ == name_key(self.users@, ord[a]));
                assert(sorted@[b].0@ == name_key(self.users@, ord[b]));
                assert(tri_le(sorted@[a], sorted@[b]));
                if sorted@[a].0@ != sorted@[b].0@ {
                    assert(lex_leq(sorted@[a].0@, sorted@[b].0@));
                } else {
                    lemma_lex_total(sorted@[a].0@, sorted@[a].0@);
                }
            }
            let fpred = |r: StudentSubject| r.subject_id == subject_id;
            let rel = |a: StudentSubject, b: StudentSubject|
                !(a.subject_id == b.subject_id && a.student_id == b.student_id);
            crate::seqs::lemma_filter_sorted(self.subjects_students@, fpred, rel);
            let f = self.subjects_students@.filter(fpred);
            let ids = enrolled_ids(self.subjects_students@, subject_id);
            assert forall|a: int, b: int| 0 <= a < b < ids.len() implies ids[a] != ids[b] by {
                self.subjects_students@.lemma_filter_pred(fpred, a);
                self.subjects_students@.lemma_filter_pred(fpred, b);
                assert(rel(f[a], f[b]));
                assert(ids[a] == f[a].student_id && ids[b] == f[b].student_id);
            }
            assert(ids.no_duplicates());
            ids.lemma_multiset_has_no_duplicates();
            assert forall|x: u32| ord.to_multiset().contains(x) implies ord.to_multiset().count(x)
                == 1 by {
                assert(ids.to_multiset().contains(x));
            }
            ord.lemma_multiset_has_no_duplicates_conv();
            assert forall|a: int, b: int|
                0 <= a < b < ord.len() && name_key(self.users@, ord[a]) == name_key(
                    self.users@,
                    ord[b],
                ) implies enrolled_row(self.subjects_students@, subject_id, ord[a]) < enrolled_row(
                self.subjects_students@,
                subject_id,
                ord[b],
            ) by {
                assert(sorted@.to_multiset().count(sorted@[a]) > 0);
                assert(pairs@.to_multiset().count(sorted@[a]) > 0);
                assert(pairs@.contains(sorted@[a]));
                assert(sorted@.to_multiset().count(sorted@[b]) > 0);
                assert(pairs@.to_multiset().count(sorted@[b]) > 0);
                assert(pairs@.contains(sorted@[b]));
                assert(sorted@[a].0@ == name_key(self.users@, ord[a]));
                assert(sorted@[b].0@ == name_key(self.users@, ord[b]));
                assert(sorted@[a].2 == enrolled_row(
                    self.subjects_students@,
                    subject_id,
                    ord[a],
                ));
                assert(sorted@[b].2 == enrolled_row(
                    self.subjects_students@,
                    subject_id,
                    ord[b],
                ));
                assert(tri_le(sorted@[a], sorted@[b]));
                assert(sorted@[a].2 <= sorted@[b].2);
                assert(ord[a] != ord[b]);
                let ra = enrolled_row(self.subjects_students@, subject_id, ord[a]);
                let rb = enrolled_row(self.subjects_students@, subject_id, ord[b]);
                assert(enrolled(self.subjects_students@, subject_id, ord[a]));
                assert(enrolled(self.subjects_students@, subject_id, ord[b]));
                assert(self.subjects_students@[ra].student_id == ord[a]);
                assert(self.subjects_students@[rb].student_id == ord[b]);
                if ra == rb {
                    assert(false);
                }
            }
            if self.subjects_students@.len() > 0 {
                lemma_ss_index_bound(
                    self.subjects_students@,
                    self.subjects_students@.len() - 1,
                );
            }
            self.subjects_students@.lemma_filter_len(
                |r: StudentSubject| r.subject_id == subject_id,
            );
            assert(pair_ids(pairs@).len() == pairs@.len());
            assert(pairs@.len() <= u32::MAX);
            assert(sorted@.len() == sorted@.to_multiset().len());
            assert(pairs@.len() == pairs@.to_multiset().len());
            assert(sorted@.len() == pairs@.len());
        }
        let assignment = groups(sorted.len(), group_count);
        let ghost blocks = block_assign(
            group_sizes_seq(sorted@.len() as int, group_count as int),
            0,
        );
        proof {
            assert(assignment@ == blocks);
            lemma_block_assign_total(sorted@.len() as int, group_count as int);
            lemma_block_assign_range(sorted@.len() as int, group_count as int);
            assert(assignment@.len() == sorted@.len());
        }
        let mut t: usize = 0;
        while t < sorted.len()
            invariant
                old(self).wf(),
                self.wf(),
                Store::same_but_student_rows(*old(self), *self),
                self.next_subject_students_id == old(self).next_subject_students_id,
                self.dirty == old(self).dirty,
                t <= sorted@.len(),
                ord == pair_ids(sorted@),
                ord.no_duplicates(),
                group_count >= 1,
                blocks == block_assign(
                    group_sizes_seq(ord.len() as int, group_count as int),
                    0,
                ),
                assignment@ == blocks,
                assignment@.len() == sorted@.len(),
                ord.len() == sorted@.len(),
                forall|q: int| 0 <= q < blocks.len() ==> (#[trigger] blocks[q]) < group_count,
                self.subjects_students@.len() == old(self).subjects_students@.len(),
                forall|i: int|
                    0 <= i < old(self).subjects_students@.len()
                        && (#[trigger] old(self).subjects_students@[i]).subject_id != subject_id
                        ==> self.subjects_students@[i] == old(self).subjects_students@[i],
                forall|i: int|
                    0 <= i < old(self).subjects_students@.len() ==> self.subjects_students@[i]
                        == (StudentSubject {
                        group_number: self.subjects_students@[i].group_number,
                        ..old(self).subjects_students@[i]
                    }),
                forall|q: int, i: int|
                    0 <= q < t && 0 <= i < self.subjects_students@.len()
                        && (#[trigger] self.subjects_students@[i]).subject_id == subject_id
                        && self.subjects_students@[i].student_id == #[trigger] ord[q]
                        ==> self.subjects_students@[i].group_number == blocks[q],
            decreases sorted@.len() - t,
        {
            let student_id = sorted[t].1;
            let group = assignment[t];
            let ghost before = self.subjects_students@;
            match self.enrollment_pos(subject_id, student_id) {
                Some(j) => {
                    let row = self.subjects_students[j];
                    let new_row = StudentSubject { group_number: group, ..row };
                    self.subjects_students.set(j, new_row);
                    proof {
                        assert(student_id == ord[t as int]);
                        assert forall|q: int, i: int|
                            0 <= q < t + 1 && 0 <= i < self.subjects_students@.len()
                                && (#[trigger] self.subjects_students@[i]).subject_id == subject_id
                                && self.subjects_students@[i].student_id
                                == #[trigger] ord[q] implies self.subjects_students@[i].group_number
                            == blocks[q] by {
                            if q == t as int {
                                if i != j as int {
                                    assert(self.subjects_students@[i] == before[i]);
                                    assert(!(old(self).subjects_students@[i].subject_id == old(self).subjects_students@[j as int].subject_id && old(self).subjects_students@[i].student_id == old(self).subjects_students@[j as int].student_id));
                                    assert(false);
                                }
                            } else {
                                assert(ord[q] != ord[t as int]);
                                if i == j as int {
                                    assert(false);
                                } else {
                                    assert(self.subjects_students@[i] == before[i]);
                                }
                            }
                        }
                    }
                },
                None => {
                    proof {
                        assert forall|q: int, i: int|
                            0 <= q < t + 1 && 0 <= i < self.subjects_students@.len()
                                && (#[trigger] self.subjects_students@[i]).subject_id == subject_id
                                && self.subjects_students@[i].student_id
                                == #[trigger] ord[q] implies self.subjects_students@[i].group_number
                            == blocks[q] by {
                            if q == t as int {
                                assert(enrolled(self.subjects_students@, subject_id, ord[q]));
                                assert(false);
                            }
                        }
                    }
                },
            }
            t = t + 1;
        }
        proof {
            let fpred = |r: StudentSubject| r.subject_id == subject_id;
            let ids = enrolled_ids(old(self).subjects_students@, subject_id);
            assert forall|i: int|
                0 <= i < self.subjects_students@.len() && (#[trigger] self.subjects_students@[i]).subject_id
                    == subject_id implies self.subjects_students@[i].group_number
                < subject_group_count(old(self).subjects@, subject_id) by {
                let row_old = old(self).subjects_students@[i];
                assert(row_old.subject_id == subject_id);
                assert(row_old.student_id == self.subjects_students@[i].student_id);
                old(self).subjects_students@.lemma_filter_contains(fpred, i);
                let f = old(self).subjects_students@.filter(fpred);
                let w = choose|w: int| 0 <= w < f.len() && f[w] == row_old;
                assert(ids[w] == row_old.student_id);
                assert(ids.contains(row_old.student_id));
                assert(ids.to_multiset().count(row_old.student_id) > 0);
                assert(ord.to_multiset().count(row_old.student_id) > 0);
                assert(ord.contains(row_old.student_id));
                let tq = choose|tq: int| 0 <= tq < ord.len() && ord[tq] == row_old.student_id;
                assert(self.subjects_students@[i].group_number == blocks[tq]);
                assert(blocks[tq] < group_count);
            }
        }
        self.dirty = true;
    }
}


proof fn lemma_count_val_multiset(s: Seq<u32>, x: u32)
    ensures
        count_val(s, x) == s.to_multiset().count(x),
    decreases s.len(),
{
    broadcast use group_to_multiset_ensures, vstd::multiset::group_multiset_axioms;

    if s.len() == 0 {
        assert(s.to_multiset() =~= Multiset::<u32>::empty());
    } else {
        lemma_count_val_multiset(s.drop_last(), x);
        assert(s =~= s.drop_last().push(s.last()));
        assert(s.to_multiset() =~= s.drop_last().push(s.last()).to_multiset());
    }
}

proof fn lemma_perm_group_multisets(
    students: Seq<u32>,
    rowgroups: Seq<u32>,
    ord: Seq<u32>,
    blocks: Seq<u32>,
)
    requires
        students.no_duplicates(),
        ord.no_duplicates(),
        students.to_multiset() == ord.to_multiset(),
        students.len() == rowgroups.len(),
        ord.len() == blocks.len(),
        forall|i: int, t: int|
            0 <= i < students.len() && 0 <= t < ord.len() && #[trigger] students[i]
                == #[trigger] ord[t] ==> rowgroups[i] == blocks[t],
    ensures
        rowgroups.to_multiset() == blocks.to_multiset(),
    decreases ord.len(),
{
    broadcast use group_to_multiset_ensures, vstd::multiset::group_multiset_axioms;

    if ord.len() == 0 {
        assert(students.len() == students.to_multiset().len());
        assert(rowgroups =~= Seq::<u32>::empty());
        assert(blocks =~= Seq::<u32>::empty());
        assert(rowgroups.to_multiset() =~= blocks.to_multiset());
    } else {
        let t0 = ord.len() - 1;
        let s0 = ord[t0];
        assert(ord.to_multiset().count(s0) > 0);
        assert(students.to_multiset().count(s0) > 0);
        assert(students.contains(s0));
        let w = choose|w: int| 0 <= w < students.len() && students[w] == s0;
        assert(rowgroups[w] == blocks[t0]);
        let students1 = students.remove(w);
        let rowgroups1 = rowgroups.remove(w);
        let ord1 = ord.drop_last();
        let blocks1 = blocks.drop_last();
        assert(ord1 =~= ord.remove(t0));
        assert(students1.to_multiset() =~= students.to_multiset().remove(s0));
        assert(ord1.to_multiset() =~= ord.to_multiset().remove(s0));
        assert forall|i: int, j: int|
            0 <= i < j < students1.len() implies students1[i] != students1[j] by {
            let oi = if i < w {
                i
            } else {
                i + 1
            };
            let oj = if j < w {
                j
            } else {
                j + 1
            };
            assert(students1[i] == students[oi] && students1[j] == students[oj]);
        }
        assert(students1.no_duplicates());
        assert forall|i: int, j: int| 0 <= i < j < ord1.len() implies ord1[i] != ord1[j] by {
            assert(ord1[i] == ord[i] && ord1[j] == ord[j]);
        }
        assert(ord1.no_duplicates());
        assert forall|i: int, t: int|
            0 <= i < students1.len() && 0 <= t < ord1.len() && #[trigger] students1[i]
                == #[trigger] ord1[t] implies rowgroups1[i] == blocks1[t] by {
            let oi = if i < w {
                i
            } else {
                i + 1
            };
            assert(students1[i] == students[oi] && rowgroups1[i] == rowgroups[oi]);
            assert(ord1[t] == ord[t] && blocks1[t] == blocks[t]);
        }
        lemma_perm_group_multisets(students1, rowgroups1, ord1, blocks1);
        assert(rowgroups.to_multiset() =~= rowgroups1.to_multiset().insert(rowgroups[w]));
        assert(blocks =~= blocks1.push(blocks[t0]));
        assert(blocks.to_multiset() =~= blocks1.to_multiset().insert(blocks[t0]));
        assert(rowgroups.to_multiset() =~= blocks.to_multiset());
    }
}

proof fn lemma_group_filter_count(ss: Seq<StudentSubject>, sid: u32, k: u32)
    ensures
        ss.filter(|r: StudentSubject| r.subject_id == sid && r.group_number == k).len()
            == count_val(
            ss.filter(|r: StudentSubject| r.subject_id == sid).map_values(
                |r: StudentSubject| r.group_number,
            ),
            k,
        ),
    decreases ss.len(),
{
    reveal(Seq::filter);
    let both = |r: StudentSubject| r.subject_id == sid && r.group_number == k;
    let subj = |r: StudentSubject| r.subject_id == sid;
    if ss.len() == 0 {
        assert(ss.filter(subj).map_values(|r: StudentSubject| r.group_number)
            =~= Seq::<u32>::empty());
    } else {
        lemma_group_filter_count(ss.drop_last(), sid, k);
        let prevg = ss.drop_last().filter(subj).map_values(|r: StudentSubject| r.group_number);
        let curg = ss.filter(subj).map_values(|r: StudentSubject| r.group_number);
        if subj(ss.last()) {
            assert(ss.filter(subj) == ss.drop_last().filter(subj).push(ss.last()));
            assert(curg =~= prevg.push(ss.last().group_number));
            assert(curg.drop_last() =~= prevg);
        } else {
            assert(ss.filter(subj) == ss.drop_last().filter(subj));
            assert(curg =~= prevg);
        }
    }
}

/// The distribution is balanced row by row: once every enrolled student of
/// the subject carries the group the sorted block deal assigns, group `k`
/// holds exactly `n / g` students, plus one more when `k < n % g` — the same
/// sizes `group_numbers` computes, summing to the enrollment count.
pub proof fn lemma_distribution_counts(
    ss: Seq<StudentSubject>,
    subject_id: u32,
    ord: Seq<u32>,
    g: int,
    k: u32,
)
    requires
        forall|i: int, j: int|
            0 <= i < j < ss.len() ==> !((#[trigger] ss[i]).subject_id == (
            #[trigger] ss[j]).subject_id && ss[i].student_id == ss[j].student_id),
        ord.to_multiset() == enrolled_ids(ss, subject_id).to_multiset(),
        forall|t: int, i: int|
            0 <= t < ord.len() && 0 <= i < ss.len() && (#[trigger] ss[i]).subject_id == subject_id
                && ss[i].student_id == #[trigger] ord[t] ==> ss[i].group_number == block_assign(
                group_sizes_seq(ord.len() as int, g),
                0,
            )[t],
        1 <= g <= u32::MAX,
        ord.len() <= u32::MAX,
        k < g,
    ensures
        ss.filter(|r: StudentSubject| r.subject_id == subject_id && r.group_number == k).len()
            == crate::groups::group_size(ord.len() as int, g, k as int),
{
    broadcast use group_to_multiset_ensures, vstd::multiset::group_multiset_axioms;

    let subj = |r: StudentSubject| r.subject_id == subject_id;
    let rows = ss.filter(subj);
    let students = enrolled_ids(ss, subject_id);
    let rowgroups = rows.map_values(|r: StudentSubject| r.group_number);
    let blocks = block_assign(group_sizes_seq(ord.len() as int, g), 0);
    assert forall|a: int, b: int| 0 <= a < b < students.len() implies students[a]
        != students[b] by {
        ss.lemma_filter_pred(subj, a);
        ss.lemma_filter_pred(subj, b);
        let rel = |x: StudentSubject, y: StudentSubject|
            !(x.subject_id == y.subject_id && x.student_id == y.student_id);
        crate::seqs::lemma_filter_sorted(ss, subj, rel);
        assert(rel(rows[a], rows[b]));
        assert(students[a] == rows[a].student_id && students[b] == rows[b].student_id);
    }
    assert(students.no_duplicates());
    students.lemma_multiset_has_no_duplicates();
    assert forall|x: u32| ord.to_multiset().contains(x) implies ord.to_multiset().count(x)
        == 1 by {
        assert(students.to_multiset().contains(x));
    }
    ord.lemma_multiset_has_no_duplicates_conv();
    assert(students.len() == students.to_multiset().len());
    assert(ord.len() == ord.to_multiset().len());
    crate::groups::lemma_block_assign_total(ord.len() as int, g);
    assert forall|i: int, t: int|
        0 <= i < students.len() && 0 <= t < ord.len() && #[trigger] students[i]
            == #[trigger] ord[t] implies rowgroups[i] == blocks[t] by {
        ss.lemma_filter_pred(subj, i);
        crate::seqs::lemma_filter_mem(ss, subj);
        let w = choose|w: int| 0 <= w < ss.len() && ss[w] == rows[i];
        assert(ss[w].subject_id == subject_id && ss[w].student_id == ord[t]);
        assert(ss[w].group_number == blocks[t]);
        assert(rowgroups[i] == rows[i].group_number);
    }
    lemma_perm_group_multisets(students, rowgroups, ord, blocks);
    lemma_group_filter_count(ss, subject_id, k);
    lemma_count_val_multiset(rowgroups, k);
    lemma_count_val_multiset(blocks, k);
    crate::groups::lemma_block_assign_counts(ord.len() as int, g, k);
}

/// The group count of the subject with this id, one when the id is unknown.
pub open spec fn subject_group_count(subjects: Seq<crate::models::Subject>, sid: u32) -> u32 {
    if has_subject(subjects, sid) {
        let w = choose|i: int| 0 <= i < subjects.len() && subjects[i].id == sid;
        subjects[w].group_count
    } else {
        1
    }
}

} // verus!
