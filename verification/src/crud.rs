//! Create, read, update and bulk-remove operations on classrooms and
//! classes. Bulk removal is all-or-nothing: every named id is checked before
//! anything is touched.

use vstd::prelude::*;

use crate::models::{Class, Classroom, ClassroomUpdate, ClassUpdate, NewClass, NewClassroom,
    UpdateStatus};
use crate::seqs::{ids_contain, lemma_filter_mem, lemma_filter_push, lemma_filter_sorted};
use crate::store::{has_class, has_classroom, Store};

verus! {

impl Store {
    /// The position of the classroom with this id, if any.
    fn classroom_pos(&self, id: u32) -> (r: Option<usize>)
        ensures
            r matches Some(j) ==> j < self.classrooms@.len() && self.classrooms@[j as int].id
                == id,
            r is None ==> !has_classroom(self.classrooms@, id),
    {
        let mut i: usize = 0;
        while i < self.classrooms.len()
            invariant
                i <= self.classrooms@.len(),
                forall|j: int| 0 <= j < i ==> self.classrooms@[j].id != id,
            decreases self.classrooms@.len() - i,
        {
            if self.classrooms[i].id == id {
                return Some(i);
            }
            i = i + 1;
        }
        None
    }

    /// Adds a classroom under a fresh id and returns nothing, as the id is
    /// the previous allocator value.
    pub fn classroom_add(&mut self, classroom: NewClassroom)
        requires
            old(self).wf(),
            old(self).next_classroom_id < u32::MAX,
        ensures
            final(self).wf(),
            Store::same_but_classrooms(*old(self), *final(self)),
            final(self).classrooms@ == old(self).classrooms@.push(
                (Classroom {
                    id: old(self).next_classroom_id,
                    name: classroom.name,
                    capacity: classroom.capacity,
                }),
            ),
            final(self).next_classroom_id == old(self).next_classroom_id + 1,
            final(self).dirty,
    {
        let row = Classroom {
            id: self.next_classroom_id,
            name: classroom.name,
            capacity: classroom.capacity,
        };
        self.classrooms.push(row);
        self.next_classroom_id = self.next_classroom_id + 1;
        self.dirty = true;
    }

    /// The classroom with this id, if any.
    pub fn classroom_get(&self, id: u32) -> (r: Option<&Classroom>)
        ensures
            r matches Some(c) ==> c.id == id && exists|i: int|
                0 <= i < self.classrooms@.len() && self.classrooms@[i] == *c,
            r is None ==> !has_classroom(self.classrooms@, id),
    {
        match self.classroom_pos(id) {
            Some(j) => Some(&self.classrooms[j]),
            None => None,
        }
    }

    /// Removes the named classrooms, all of them or none: when any id is
    /// unknown, nothing changes and the call reports failure.
    pub fn classroom_remove(&mut self, ids: &Vec<u32>) -> (r: bool)
        requires
            old(self).wf(),
        ensures
            final(self).wf(),
            r == (forall|i: int|
                0 <= i < ids@.len() ==> has_classroom(
                    old(self).classrooms@,
                    #[trigger] ids@[i],
                )),
            !r ==> *final(self) == *old(self),
            r ==> Store::same_but_classrooms(*old(self), *final(self)) && final(self).next_classroom_id == old(self).next_classroom_id && final(self).classrooms@ == old(self).classrooms@.filter(|c: Classroom| !ids@.contains(c.id)) && final(self).dirty,
    {
        let mut i: usize = 0;
        while i < ids.len()
            invariant
                *self == *old(self),
                i <= ids@.len(),
                forall|j: int|
                    0 <= j < i ==> has_classroom(self.classrooms@, #[trigger] ids@[j]),
            decreases ids@.len() - i,
        {
            if self.classroom_pos(ids[i]).is_none() {
                return false;
            }
            i = i + 1;
        }
        let ghost pred = |c: Classroom| !ids@.contains(c.id);
        let mut out: Vec<Classroom> = Vec::new();
        let mut k: usize = 0;
        while k < self.classrooms.len()
            invariant
                *self == *old(self),
                k <= self.classrooms@.len(),
                out@ == self.classrooms@.subrange(0, k as int).filter(pred),
                pred == (|c: Classroom| !ids@.contains(c.id)),
            decreases self.classrooms@.len() - k,
        {
            let keep = !ids_contain(ids, self.classrooms[k].id);
            proof {
                lemma_filter_push(self.classrooms@.subrange(0, k as int), self.classrooms@[k as int], pred);
                assert(self.classrooms@.subrange(0, (k + 1) as int) =~= self.classrooms@.subrange(
                    0,
                    k as int,
                ).push(self.classrooms@[k as int]));
            }
            if keep {
                let row = self.classrooms[k].clone();
                out.push(row);
            }
            k = k + 1;
        }
        proof {
            assert(self.classrooms@.subrange(0, self.classrooms@.len() as int)
                =~= self.classrooms@);
            lemma_filter_mem(self.classrooms@, pred);
            let le = |a: Classroom, b: Classroom| a.id < b.id;
            lemma_filter_sorted(self.classrooms@, pred, le);
            let f = self.classrooms@.filter(pred);
            assert forall|a: int, b: int| 0 <= a < b < f.len() implies f[a].id < f[b].id by {
                assert(le(f[a], f[b]));
            }
            assert forall|a: int| 0 <= a < f.len() implies f[a].id < self.next_classroom_id by {
                let w = choose|w: int| 0 <= w < self.classrooms@.len() && self.classrooms@[w] == f[a];
                assert(self.classrooms@[w].id < self.next_classroom_id);
            }
        }
        self.classrooms = out;
        self.dirty = true;
        true
    }

    /// Updates the named classroom's name when one is given; reports whether
    /// the row exists and whether it changed.
    pub fn classroom_update(&mut self, id: u32, update: ClassroomUpdate) -> (r: UpdateStatus)
        requires
            old(self).wf(),
        ensures
            final(self).wf(),
            r.found == has_classroom(old(self).classrooms@, id),
            !r.found ==> *final(self) == *old(self) && !r.updated,
            r.found ==> r.updated == (update.name is Some),
            r.found && update.name is None ==> *final(self) == *old(self),
            update.name matches Some(n) ==> (r.found ==> Store::same_but_classrooms(
                *old(self),
                *final(self),
            ) && final(self).next_classroom_id == old(self).next_classroom_id && final(self).dirty
                && final(self).classrooms@.len() == old(self).classrooms@.len() && (forall|i: int|
                0 <= i < old(self).classrooms@.len() && old(self).classrooms@[i].id != id
                    ==> final(self).classrooms@[i] == old(self).classrooms@[i]) && (forall|i: int|
                0 <= i < old(self).classrooms@.len() && old(self).classrooms@[i].id == id
                    ==> final(self).classrooms@[i] == (Classroom {
                    name: n,
                    ..old(self).classrooms@[i]
                }))),
    {
        match self.classroom_pos(id) {
            None => UpdateStatus { found: false, updated: false },
            Some(j) => {
                match update.name {
                    None => UpdateStatus { found: true, updated: false },
                    Some(new_name) => {
                        let row = Classroom {
                            id: self.classrooms[j].id,
                            name: new_name,
                            capacity: self.classrooms[j].capacity,
                        };
                        self.classrooms.set(j, row);
                        self.dirty = true;
                        proof {
                            assert forall|i: int|
                                0 <= i < old(self).classrooms@.len() && old(self).classrooms@[i].id == id implies i == j as int by {
                                if i != j as int {
                                    assert(old(self).classrooms@[i].id != old(self).classrooms@[j as int].id);
                                }
                            }
                        }
                        UpdateStatus { found: true, updated: true }
                    },
                }
            },
        }
    }

    /// The position of the class with this id, if any.
    fn class_pos(&self, id: u32) -> (r: Option<usize>)
        ensures
            r matches Some(j) ==> j < self.classes@.len() && self.classes@[j as int].id == id,
            r is None ==> !has_class(self.classes@, id),
    {
        let mut i: usize = 0;
        while i < self.classes.len()
            invariant
                i <= self.classes@.len(),
                forall|j: int| 0 <= j < i ==> self.classes@[j].id != id,
            decreases self.classes@.len() - i,
        {
            if self.classes[i].id == id {
                return Some(i);
            }
            i = i + 1;
        }
        None
    }

    /// Adds a class under a fresh id.
    pub fn class_add(&mut self, class: NewClass)
        requires
            old(self).wf(),
            old(self).next_class_id < u32::MAX,
        ensures
            final(self).wf(),
            Store::same_but_classes(*old(self), *final(self)),
            final(self).classes@ == old(self).classes@.push(
                (Class { id: old(self).next_class_id, name: class.name, level: class.level }),
            ),
            final(self).next_class_id == old(self).next_class_id + 1,
            final(self).dirty,
    {
        let row = Class { id: self.next_class_id, name: class.name, level: class.level };
        self.classes.push(row);
        self.next_class_id = self.next_class_id + 1;
        self.dirty = true;
    }

    /// The class with this id, if any.
    pub fn class_get(&self, id: u32) -> (r: Option<&Class>)
        ensures
            r matches Some(c) ==> c.id == id && exists|i: int|
                0 <= i < self.classes@.len() && self.classes@[i] == *c,
            r is None ==> !has_class(self.classes@, id),
    {
        match self.class_pos(id) {
            Some(j) => Some(&self.classes[j]),
            None => None,
        }
    }

    /// Removes the named classes, all of them or none.
    pub fn class_remove(&mut self, ids: &Vec<u32>) -> (r: bool)
        requires
            old(self).wf(),
        ensures
            final(self).wf(),
            r == (forall|i: int|
                0 <= i < ids@.len() ==> has_class(old(self).classes@, #[trigger] ids@[i])),
            !r ==> *final(self) == *old(self),
            r ==> Store::same_but_classes(*old(self), *final(self)) && final(self).next_class_id
                == old(self).next_class_id && final(self).classes@ == old(self).classes@.filter(
                |c: Class| !ids@.contains(c.id),
            ) && final(self).dirty,
    {
        let mut i: usize = 0;
        while i < ids.len()
            invariant
                *self == *old(self),
                i <= ids@.len(),
                forall|j: int| 0 <= j < i ==> has_class(self.classes@, #[trigger] ids@[j]),
            decreases ids@.len() - i,
        {
            if self.class_pos(ids[i]).is_none() {
                return false;
            }
            i = i + 1;
        }
        let ghost pred = |c: Class| !ids@.contains(c.id);
        let mut out: Vec<Class> = Vec::new();
        let mut k: usize = 0;
        while k < self.classes.len()
            invariant
                *self == *old(self),
                k <= self.classes@.len(),
                out@ == self.classes@.subrange(0, k as int).filter(pred),
                pred == (|c: Class| !ids@.contains(c.id)),
            decreases self.classes@.len() - k,
        {
            let keep = !ids_contain(ids, self.classes[k].id);
            proof {
                lemma_filter_push(self.classes@.subrange(0, k as int), self.classes@[k as int], pred);
                assert(self.classes@.subrange(0, (k + 1) as int) =~= self.classes@.subrange(
                    0,
                    k as int,
                ).push(self.classes@[k as int]));
            }
            if keep {
                let row = self.classes[k].clone();
                out.push(row);
            }
            k = k + 1;
        }
        proof {
            assert(self.classes@.subrange(0, self.classes@.len() as int) =~= self.classes@);
            lemma_filter_mem(self.classes@, pred);
            let le = |a: Class, b: Class| a.id < b.id;
            lemma_filter_sorted(self.classes@, pred, le);
            let f = self.classes@.filter(pred);
            assert forall|a: int, b: int| 0 <= a < b < f.len() implies f[a].id < f[b].id by {
                assert(le(f[a], f[b]));
            }
            assert forall|a: int| 0 <= a < f.len() implies f[a].id < self.next_class_id by {
                let w = choose|w: int| 0 <= w < self.classes@.len() && self.classes@[w] == f[a];
                assert(self.classes@[w].id < self.next_class_id);
            }
        }
        self.classes = out;
        self.dirty = true;
        true
    }

    /// Updates the named class's name and level where given; reports whether
    /// the row exists and whether it changed.
    pub fn class_update(&mut self, id: u32, update: ClassUpdate) -> (r: UpdateStatus)
        requires
            old(self).wf(),
        ensures
            final(self).wf(),
            r.found == has_class(old(self).classes@, id),
            !r.found ==> *final(self) == *old(self) && !r.updated,
            r.found ==> r.updated == (update.name is Some || update.level is Some),
            r.found && !r.updated ==> *final(self) == *old(self),
            r.found && r.updated ==> Store::same_but_classes(*old(self), *final(self)) && final(self).next_class_id == old(self).next_class_id && final(self).dirty && final(self).classes@.len() == old(self).classes@.len() && (forall|i: int|
                0 <= i < old(self).classes@.len() && old(self).classes@[i].id != id ==> final(self).classes@[i] == old(self).classes@[i]) && (forall|i: int|
                0 <= i < old(self).classes@.len() && old(self).classes@[i].id == id ==> final(self).classes@[i] == (Class {
                    name: if update.name is Some {
                        update.name.unwrap()
                    } else {
                        old(self).classes@[i].name
                    },
                    level: if update.level is Some {
                        update.level.unwrap()
                    } else {
                        old(self).classes@[i].level
                    },
                    ..old(self).classes@[i]
                })),
    {
        match self.class_pos(id) {
            None => UpdateStatus { found: false, updated: false },
            Some(j) => {
                let has_name = update.name.is_some();
                let has_level = update.level.is_some();
                if !has_name && !has_level {
                    return UpdateStatus { found: true, updated: false };
                }
                let name = match update.name {
                    Some(n) => n,
                    None => self.classes[j].name.clone(),
                };
                let level = match update.level {
                    Some(l) => l,
                    None => self.classes[j].level,
                };
                let row = Class { id: self.classes[j].id, name, level };
                self.classes.set(j, row);
                self.dirty = true;
                proof {
                    assert forall|i: int|
                        0 <= i < old(self).classes@.len() && old(self).classes@[i].id
                            == id implies i == j as int by {
                        if i != j as int {
                            assert(old(self).classes@[i].id != old(self).classes@[j as int].id);
                        }
                    }
                }
                UpdateStatus { found: true, updated: true }
            },
        }
    }
}

} // verus!
