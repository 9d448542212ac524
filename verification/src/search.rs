//! Listing with substring search and fixed-size pagination. A row matches
//! when its normalized projected field contains the normalized query; the
//! returned total counts every match of the full scan, whatever page was
//! asked for, and the page is a ten-row window of the matches.

use vstd::prelude::*;

use crate::models::{Class, Classroom, PossibleUserKind, Subject, User, UserKind};
use crate::seqs::lemma_filter_push;
use crate::store::Store;
use crate::text::{contains_sub, normalize, normalize_query, query_matches};
use crate::PAGE_SIZE;

verus! {

/// The view of an optional query string.
pub open spec fn query_view(q: Option<&str>) -> Option<Seq<char>> {
    match q {
        Option::None => Option::None,
        Option::Some(s) => Option::Some(s@),
    }
}

/// The ten-row window of the matches that the requested page selects.
pub open spec fn page_slice<A>(s: Seq<A>, page: int) -> Seq<A> {
    let skip = (page - 1) * 10;
    if skip >= s.len() {
        Seq::empty()
    } else if skip + 10 <= s.len() {
        s.subrange(skip, skip + 10)
    } else {
        s.subrange(skip, s.len() as int)
    }
}

/// The account passes the optional role filter.
pub open spec fn kind_matches(k: UserKind, f: Option<PossibleUserKind>) -> bool {
    match f {
        Option::None => true,
        Option::Some(PossibleUserKind::Administrator) => k is Administrator,
        Option::Some(PossibleUserKind::Teacher) => k is Teacher,
        Option::Some(PossibleUserKind::Student) => k is Student,
    }
}

impl Store {
    /// Classrooms matching the query by name: the total across the whole
    /// table, and the requested page of matches.
    pub fn classroom_list(&self, page: usize, query: Option<&str>) -> (r: (usize, Vec<Classroom>))
        requires
            page >= 1,
            (page - 1) * 10 <= usize::MAX,
        ensures
            r.0 == self.classrooms@.filter(
                |c: Classroom| query_matches(c.name@, query_view(query)),
            ).len(),
            r.1@ == page_slice(
                self.classrooms@.filter(|c: Classroom| query_matches(c.name@, query_view(query))),
                page as int,
            ),
    {
        let qb: Option<Vec<u8>> = match query {
            Some(s) => Some(normalize_query(s)),
            None => None,
        };
        let ghost pred = |c: Classroom| query_matches(c.name@, query_view(query));
        let to_skip = (page - 1) * PAGE_SIZE;
        let mut total: usize = 0;
        let mut skipped: usize = 0;
        let mut out: Vec<Classroom> = Vec::new();
        let mut k: usize = 0;
        while k < self.classrooms.len()
            invariant
                k <= self.classrooms@.len(),
                pred == (|c: Classroom| query_matches(c.name@, query_view(query))),
                to_skip == (page - 1) * 10,
                total == self.classrooms@.subrange(0, k as int).filter(pred).len(),
                skipped == if to_skip <= total {
                    to_skip
                } else {
                    total
                },
                out@ == page_slice(self.classrooms@.subrange(0, k as int).filter(pred), page as int),
                out@.len() <= 10,
            decreases self.classrooms@.len() - k,
        {
            let row_matches = match &qb {
                Some(q) => {
                    let nb = normalize(self.classrooms[k].name.as_str());
                    contains_sub(&nb, q)
                },
                None => true,
            };
            let ghost fp = self.classrooms@.subrange(0, k as int).filter(pred);
            proof {
                assert(row_matches == pred(self.classrooms@[k as int]));
                lemma_filter_push(
                    self.classrooms@.subrange(0, k as int),
                    self.classrooms@[k as int],
                    pred,
                );
                assert(self.classrooms@.subrange(0, (k + 1) as int) =~= self.classrooms@.subrange(
                    0,
                    k as int,
                ).push(self.classrooms@[k as int]));
            }
            if row_matches {
                let ghost fp1 = fp.push(self.classrooms@[k as int]);
                total = total + 1;
                if skipped < to_skip {
                    skipped = skipped + 1;
                    proof {
                        assert(page_slice(fp1, page as int) =~= page_slice(fp, page as int));
                    }
                } else if out.len() < PAGE_SIZE {
                    let row = self.classrooms[k].clone();
                    out.push(row);
                    proof {
                        assert(out@ =~= page_slice(fp1, page as int));
                    }
                } else {
                    proof {
                        assert(page_slice(fp1, page as int) =~= page_slice(fp, page as int));
                    }
                }
            }
            k = k + 1;
        }
        proof {
            assert(self.classrooms@.subrange(0, self.classrooms@.len() as int)
                =~= self.classrooms@);
        }
        (total, out)
    }

    /// Classes matching the query by name: total and requested page.
    pub fn class_list(&self, page: usize, query: Option<&str>) -> (r: (usize, Vec<Class>))
        requires
            page >= 1,
            (page - 1) * 10 <= usize::MAX,
        ensures
            r.0 == self.classes@.filter(|c: Class| query_matches(c.name@, query_view(query))).len(),
            r.1@ == page_slice(
                self.classes@.filter(|c: Class| query_matches(c.name@, query_view(query))),
                page as int,
            ),
    {
        let qb: Option<Vec<u8>> = match query {
            Some(s) => Some(normalize_query(s)),
            None => None,
        };
        let ghost pred = |c: Class| query_matches(c.name@, query_view(query));
        let to_skip = (page - 1) * PAGE_SIZE;
        let mut total: usize = 0;
        let mut skipped: usize = 0;
        let mut out: Vec<Class> = Vec::new();
        let mut k: usize = 0;
        while k < self.classes.len()
            invariant
                k <= self.classes@.len(),
                pred == (|c: Class| query_matches(c.name@, query_view(query))),
                to_skip == (page - 1) * 10,
                total == self.classes@.subrange(0, k as int).filter(pred).len(),
                skipped == if to_skip <= total {
                    to_skip
                } else {
                    total
                },
                out@ == page_slice(self.classes@.subrange(0, k as int).filter(pred), page as int),
                out@.len() <= 10,
            decreases self.classes@.len() - k,
        {
            let row_matches = match &qb {
                Some(q) => {
                    let nb = normalize(self.classes[k].name.as_str());
                    contains_sub(&nb, q)
                },
                None => true,
            };
            let ghost fp = self.classes@.subrange(0, k as int).filter(pred);
            proof {
                assert(row_matches == pred(self.classes@[k as int]));
                lemma_filter_push(self.classes@.subrange(0, k as int), self.classes@[k as int], pred);
                assert(self.classes@.subrange(0, (k + 1) as int) =~= self.classes@.subrange(
                    0,
                    k as int,
                ).push(self.classes@[k as int]));
            }
            if row_matches {
                let ghost fp1 = fp.push(self.classes@[k as int]);
                total = total + 1;
                if skipped < to_skip {
                    skipped = skipped + 1;
                    proof {
                        assert(page_slice(fp1, page as int) =~= page_slice(fp, page as int));
                    }
                } else if out.len() < PAGE_SIZE {
                    let row = self.classes[k].clone();
                    out.push(row);
                    proof {
                        assert(out@ =~= page_slice(fp1, page as int));
                    }
                } else {
                    proof {
                        assert(page_slice(fp1, page as int) =~= page_slice(fp, page as int));
                    }
                }
            }
            k = k + 1;
        }
        proof {
            assert(self.classes@.subrange(0, self.classes@.len() as int) =~= self.classes@);
        }
        (total, out)
    }

    /// Subjects matching the query by name: total and requested page.
    pub fn subject_list(&self, page: usize, query: Option<&str>) -> (r: (usize, Vec<Subject>))
        requires
            page >= 1,
            (page - 1) * 10 <= usize::MAX,
        ensures
            r.0 == self.subjects@.filter(
                |c: Subject| query_matches(c.name@, query_view(query)),
            ).len(),
            r.1@ == page_slice(
                self.subjects@.filter(|c: Subject| query_matches(c.name@, query_view(query))),
                page as int,
            ),
    {
        let qb: Option<Vec<u8>> = match query {
            Some(s) => Some(normalize_query(s)),
            None => None,
        };
        let ghost pred = |c: Subject| query_matches(c.name@, query_view(query));
        let to_skip = (page - 1) * PAGE_SIZE;
        let mut total: usize = 0;
        let mut skipped: usize = 0;
        let mut out: Vec<Subject> = Vec::new();
        let mut k: usize = 0;
        while k < self.subjects.len()
            invariant
                k <= self.subjects@.len(),
                pred == (|c: Subject| query_matches(c.name@, query_view(query))),
                to_skip == (page - 1) * 10,
                total == self.subjects@.subrange(0, k as int).filter(pred).len(),
                skipped == if to_skip <= total {
                    to_skip
                } else {
                    total
                },
                out@ == page_slice(self.subjects@.subrange(0, k as int).filter(pred), page as int),
                out@.len() <= 10,
            decreases self.subjects@.len() - k,
        {
            let row_matches = match &qb {
                Some(q) => {
                    let nb = normalize(self.subjects[k].name.as_str());
                    contains_sub(&nb, q)
                },
                None => true,
            };
            let ghost fp = self.subjects@.subrange(0, k as int).filter(pred);
            proof {
                assert(row_matches == pred(self.subjects@[k as int]));
                lemma_filter_push(self.subjects@.subrange(0, k as int), self.subjects@[k as int], pred);
                assert(self.subjects@.subrange(0, (k + 1) as int) =~= self.subjects@.subrange(
                    0,
                    k as int,
                ).push(self.subjects@[k as int]));
            }
            if row_matches {
                let ghost fp1 = fp.push(self.subjects@[k as int]);
                total = total + 1;
                if skipped < to_skip {
                    skipped = skipped + 1;
                    proof {
                        assert(page_slice(fp1, page as int) =~= page_slice(fp, page as int));
                    }
                } else if out.len() < PAGE_SIZE {
                    let row = self.subjects[k].clone();
                    out.push(row);
                    proof {
                        assert(out@ =~= page_slice(fp1, page as int));
                    }
                } else {
                    proof {
                        assert(page_slice(fp1, page as int) =~= page_slice(fp, page as int));
                    }
                }
            }
            k = k + 1;
        }
        proof {
            assert(self.subjects@.subrange(0, self.subjects@.len() as int) =~= self.subjects@);
        }
        (total, out)
    }

    /// Users matching the query by full name and passing the role filter.
    /// With a page, the requested window of matches; without one, every
    /// match. The total counts every match either way. The filter names a
    /// role rather than taking a caller closure; a caller that needs a finer
    /// cut lists unpaged and filters the returned rows itself.
    pub fn user_list(&self, page: Option<usize>, query: Option<&str>, kind: Option<
        PossibleUserKind,
    >) -> (r: (usize, Vec<User>))
        requires
            page matches Some(p) ==> p >= 1 && (p - 1) * 10 <= usize::MAX,
        ensures
            r.0 == self.users@.filter(
                |u: User| query_matches(u.full_name_view(), query_view(query)) && kind_matches(
                    u.kind,
                    kind,
                ),
            ).len(),
            page matches Some(p) ==> r.1@ == page_slice(
                self.users@.filter(
                    |u: User| query_matches(u.full_name_view(), query_view(query)) && kind_matches(
                        u.kind,
                        kind,
                    ),
                ),
                p as int,
            ),
            page is None ==> r.1@ == self.users@.filter(
                |u: User| query_matches(u.full_name_view(), query_view(query)) && kind_matches(
                    u.kind,
                    kind,
                ),
            ),
    {
        let qb: Option<Vec<u8>> = match query {
            Some(s) => Some(normalize_query(s)),
            None => None,
        };
        let ghost pred = |u: User|
            query_matches(u.full_name_view(), query_view(query)) && kind_matches(u.kind, kind);
        let paged = page.is_some();
        let to_skip = match page {
            Some(p) => (p - 1) * PAGE_SIZE,
            None => 0,
        };
        let mut total: usize = 0;
        let mut skipped: usize = 0;
        let mut out: Vec<User> = Vec::new();
        let mut k: usize = 0;
        while k < self.users.len()
            invariant
                k <= self.users@.len(),
                pred == (|u: User|
                    query_matches(u.full_name_view(), query_view(query)) && kind_matches(
                        u.kind,
                        kind,
                    )),
                paged == (page is Some),
                paged ==> to_skip == (page.unwrap() - 1) * 10,
                total == self.users@.subrange(0, k as int).filter(pred).len(),
                skipped == if to_skip <= total {
                    to_skip
                } else {
                    total
                },
                paged ==> out@ == page_slice(
                    self.users@.subrange(0, k as int).filter(pred),
                    page.unwrap() as int,
                ) && out@.len() <= 10,
                !paged ==> out@ == self.users@.subrange(0, k as int).filter(pred),
            decreases self.users@.len() - k,
        {
            let kind_ok = match (&self.users[k].kind, &kind) {
                (_, None) => true,
                (UserKind::Administrator, Some(PossibleUserKind::Administrator)) => true,
                (UserKind::Teacher(_), Some(PossibleUserKind::Teacher)) => true,
                (UserKind::Student(_), Some(PossibleUserKind::Student)) => true,
                _ => false,
            };
            let row_matches = kind_ok && match &qb {
                Some(q) => {
                    let fname = self.users[k].full_name();
                    let nb = normalize(fname.as_str());
                    contains_sub(&nb, q)
                },
                None => true,
            };
            let ghost fp = self.users@.subrange(0, k as int).filter(pred);
            proof {
                assert(row_matches == pred(self.users@[k as int]));
                lemma_filter_push(self.users@.subrange(0, k as int), self.users@[k as int], pred);
                assert(self.users@.subrange(0, (k + 1) as int) =~= self.users@.subrange(
                    0,
                    k as int,
                ).push(self.users@[k as int]));
            }
            if row_matches {
                let ghost fp1 = fp.push(self.users@[k as int]);
                total = total + 1;
                if !paged {
                    let row = self.users[k].clone();
                    out.push(row);
                    skipped = 0;
                    proof {
                        assert(out@ =~= fp1);
                    }
                } else if skipped < to_skip {
                    skipped = skipped + 1;
                    proof {
                        assert(page_slice(fp1, page.unwrap() as int) =~= page_slice(
                            fp,
                            page.unwrap() as int,
                        ));
                    }
                } else if out.len() < PAGE_SIZE {
                    let row = self.users[k].clone();
                    out.push(row);
                    proof {
                        assert(out@ =~= page_slice(fp1, page.unwrap() as int));
                    }
                } else {
                    proof {
                        assert(page_slice(fp1, page.unwrap() as int) =~= page_slice(
                            fp,
                            page.unwrap() as int,
                        ));
                    }
                }
            }
            k = k + 1;
        }
        proof {
            assert(self.users@.subrange(0, self.users@.len() as int) =~= self.users@);
        }
        (total, out)
    }
}

} // verus!
