//! Borrow/move bookkeeping of the borrow checker: which bindings are moved,
//! which are borrowed (immutably or mutably) and until which statement, and
//! the move/borrow provenance edges between bindings.
use vstd::prelude::*;
use crate::span::Span;
use crate::names::{NameMap, NameSet};
use crate::text::str_eq;

verus! {

/// Whether values of a type are copied or moved on assignment.
#[derive(Debug, PartialEq, Eq, Copy, Structural)]
pub enum OwnershipKind {
    Copy,
    Move,
}

impl Clone for OwnershipKind {
    fn clone(&self) -> (r: Self)
        ensures
            r == *self,
    {
        *self
    }
}

impl OwnershipKind {
    pub fn is_move(&self) -> (r: bool)
        ensures
            r == (*self == OwnershipKind::Move),
    {
        *self == OwnershipKind::Move
    }

    pub fn is_copy(&self) -> (r: bool)
        ensures
            r == (*self == OwnershipKind::Copy),
    {
        *self == OwnershipKind::Copy
    }
}

/// Where a value was moved: into which callee (if a call) and at which span.
#[derive(Debug, PartialEq)]
pub struct MoveOrigin {
    pub callee: Option<String>,
    pub call_span: Span,
}

impl MoveOrigin {
    /// A copy of this origin.
    pub fn duplicate(&self) -> (r: MoveOrigin)
        ensures
            r == *self,
    {
        let callee = match &self.callee {
            Some(c) => Some(c.clone()),
            None => None,
        };
        MoveOrigin { callee, call_span: self.call_span.clone() }
    }
}

/// Move origin recorded when `name` is moved (into `callee` when it is a call).
pub fn record_move_origin(callee: Option<&str>, call_span: Span) -> (r: MoveOrigin)
    ensures
        r.call_span == call_span,
        match callee {
            Some(c) => r.callee matches Some(s) && s@ == c@,
            None => r.callee is None,
        },
{
    let callee = match callee {
        Some(c) => Some(String::from_str(c)),
        None => None,
    };
    MoveOrigin { callee, call_span }
}

/// What the checker knows of a binding's type: its printed label, whether it
/// is Copy or Move, and whether it is a reference type.
#[derive(Debug, PartialEq)]
pub struct VarInfo {
    pub label: String,
    pub kind: OwnershipKind,
    pub is_ref: bool,
}

/// One live borrow of `source`, held by `borrower` (a `let` binding) or by a
/// temporary expression, active through statement `expires_after`.
#[derive(Debug, PartialEq)]
pub struct ActiveBorrow {
    pub source: String,
    pub borrower: Option<String>,
    pub mutable: bool,
    pub expires_after: usize,
}

impl ActiveBorrow {
    pub fn duplicate(&self) -> (r: ActiveBorrow)
        ensures
            r == *self,
    {
        let borrower = match &self.borrower {
            Some(b) => Some(b.clone()),
            None => None,
        };
        ActiveBorrow {
            source: self.source.clone(),
            borrower,
            mutable: self.mutable,
            expires_after: self.expires_after,
        }
    }
}

/// Sources of the borrows in `bs` with the given mutability.
pub open spec fn borrowed_sources(bs: Seq<ActiveBorrow>, mutable: bool) -> Set<Seq<char>> {
    Set::new(|n: Seq<char>| exists|i: int| 0 <= i < bs.len() && #[trigger] bs[i].source@ == n && bs[i].mutable == mutable)
}

/// Borrows of `bs` that are still active at statement `idx`.
pub open spec fn live_at(bs: Seq<ActiveBorrow>, idx: usize) -> Seq<ActiveBorrow> {
    bs.filter(|b: ActiveBorrow| b.expires_after >= idx)
}

/// Borrows of `bs` whose source is not `source`.
pub open spec fn without_source(bs: Seq<ActiveBorrow>, source: Seq<char>) -> Seq<ActiveBorrow> {
    bs.filter(|b: ActiveBorrow| b.source@ != source)
}

/// A borrow-check error decided from the state.
#[derive(Debug, PartialEq, Eq)]
pub enum BorrowError {
    /// `&name` / `&mut name` after `name` was moved.
    CannotBorrowMoved { name: String },
    /// `&mut name` while `name` is already borrowed.
    CannotBorrowMutAlias { name: String },
    /// `&name` while `name` is mutably borrowed.
    CannotBorrowWhileMutBorrowed { name: String },
    /// Moving `name` while it is borrowed.
    MoveWhileBorrowed { name: String },
    /// Assigning to `name` while it is borrowed.
    AssignWhileBorrowed { name: String, mutably: bool },
    /// Reading `name` after it was moved.
    UseAfterMove { name: String, callee: Option<String> },
    /// Reading `name` while it is mutably borrowed.
    UseWhileMutBorrowed { name: String },
    /// Reading `name` while it is immutably borrowed.
    UseWhileBorrowed { name: String },
    /// `free(name)` on an owned value that is dropped automatically anyway.
    ManualFreeOfOwned { name: String },
    /// A capturing closure, `spawn` or `parallel for` while borrows are live.
    BorrowsActiveAt { site: BorrowSite },
    /// A problem found by the ownership analysis (Copy attributes, Send/Sync captures).
    OwnershipProblem { message: String },
}

/// A construct that may not start while references are live.
#[derive(Debug, PartialEq, Eq, Copy, Structural)]
pub enum BorrowSite {
    Closure,
    Spawn,
    ParallelFor,
}

impl Clone for BorrowSite {
    fn clone(&self) -> (r: Self)
        ensures
            r == *self,
    {
        *self
    }
}

impl BorrowSite {
    /// The construct as named in diagnostics.
    pub fn describe(&self) -> (r: &'static str)
        ensures
            r@ == spec_site_text(*self),
    {
        match self {
            BorrowSite::Closure => "closure",
            BorrowSite::Spawn => "spawn",
            BorrowSite::ParallelFor => "`parallel for`",
        }
    }
}

/// `closure` / `spawn` / `` `parallel for` ``.
pub open spec fn spec_site_text(site: BorrowSite) -> Seq<char> {
    match site {
        BorrowSite::Closure => "closure"@,
        BorrowSite::Spawn => "spawn"@,
        BorrowSite::ParallelFor => "`parallel for`"@,
    }
}

/// Per-function borrow-checker state.
pub struct BorrowState {
    /// Moved bindings and where they were moved.
    pub moved: NameMap<MoveOrigin>,
    /// `let dest = src` move: dest → src.
    pub move_from: NameMap<String>,
    /// `let dest = src` move: src → dest.
    pub move_to: NameMap<String>,
    /// Bindings declared `mut`.
    pub mutable: NameSet,
    pub active_borrows: Vec<ActiveBorrow>,
    pub borrowed_imm: NameSet,
    pub borrowed_mut: NameSet,
    /// Declared bindings and their types.
    pub var_types: NameMap<VarInfo>,
    /// `let r = &x`: r → x.
    pub ref_sources: NameMap<String>,
    pub manually_freed: NameSet,
    pub unsafe_depth: u32,
    /// Ownership kind of a binding whose type is unknown.
    pub unknown_kind: OwnershipKind,
}

impl BorrowState {
    /// Collections are well formed and the borrow sets are exactly the sources
    /// of the active borrows.
    pub open spec fn wf(&self) -> bool {
        &&& self.moved.wf()
        &&& self.move_from.wf()
        &&& self.move_to.wf()
        &&& self.mutable.wf()
        &&& self.borrowed_imm.wf()
        &&& self.borrowed_mut.wf()
        &&& self.var_types.wf()
        &&& self.ref_sources.wf()
        &&& self.manually_freed.wf()
        &&& self.borrowed_imm.view() == borrowed_sources(self.active_borrows@, false)
        &&& self.borrowed_mut.view() == borrowed_sources(self.active_borrows@, true)
    }

    /// Ownership kind of binding `name` (the unknown kind when undeclared).
    pub open spec fn kind_of_var(&self, name: Seq<char>) -> OwnershipKind {
        if self.var_types.view().contains_key(name) {
            self.var_types.view()[name].kind
        } else {
            self.unknown_kind
        }
    }

    /// Is `name` borrowed in either way?
    pub open spec fn is_borrowed(&self, name: Seq<char>) -> bool {
        self.borrowed_imm.view().contains(name) || self.borrowed_mut.view().contains(name)
    }

    /// A fresh state for one function body.
    pub fn new(unknown_kind: OwnershipKind) -> (r: BorrowState)
        ensures
            r.wf(),
            r.moved.view() == Map::<Seq<char>, MoveOrigin>::empty(),
            r.move_from.view() == Map::<Seq<char>, String>::empty(),
            r.move_to.view() == Map::<Seq<char>, String>::empty(),
            r.ref_sources.view() == Map::<Seq<char>, String>::empty(),
            r.var_types.view() == Map::<Seq<char>, VarInfo>::empty(),
            r.active_borrows@.len() == 0,
            r.mutable.view() == Set::<Seq<char>>::empty(),
            r.manually_freed.view() == Set::<Seq<char>>::empty(),
            r.unsafe_depth == 0,
            r.unknown_kind == unknown_kind,
    {
        let r = BorrowState {
            moved: NameMap::new(),
            move_from: NameMap::new(),
            move_to: NameMap::new(),
            mutable: NameSet::new(),
            active_borrows: Vec::new(),
            borrowed_imm: NameSet::new(),
            borrowed_mut: NameSet::new(),
            var_types: NameMap::new(),
            ref_sources: NameMap::new(),
            manually_freed: NameSet::new(),
            unsafe_depth: 0,
            unknown_kind,
        };
        assert(borrowed_sources(r.active_borrows@, false) =~= Set::<Seq<char>>::empty());
        assert(borrowed_sources(r.active_borrows@, true) =~= Set::<Seq<char>>::empty());
        r
    }

    /// Inside an `unsafe` block?
    pub fn in_unsafe(&self) -> (r: bool)
        ensures
            r == (self.unsafe_depth > 0),
    {
        self.unsafe_depth > 0
    }

    /// Ownership kind of binding `name`.
    pub fn ownership_of_var(&self, name: &str) -> (r: OwnershipKind)
        requires
            self.wf(),
        ensures
            r == self.kind_of_var(name@),
    {
        match self.var_types.get(name) {
            Some(info) => info.kind,
            None => self.unknown_kind,
        }
    }

    /// Recomputes the immutable/mutable borrow sets from the active borrows.
    pub fn rebuild_borrow_sets(&mut self)
        requires
            old(self).moved.wf(),
            old(self).move_from.wf(),
            old(self).move_to.wf(),
            old(self).mutable.wf(),
            old(self).var_types.wf(),
            old(self).ref_sources.wf(),
            old(self).manually_freed.wf(),
            old(self).borrowed_imm.wf(),
            old(self).borrowed_mut.wf(),
        ensures
            final(self).wf(),
            final(self).active_borrows@ == old(self).active_borrows@,
            final(self).moved == old(self).moved,
            final(self).move_from == old(self).move_from,
            final(self).move_to == old(self).move_to,
            final(self).mutable == old(self).mutable,
            final(self).var_types == old(self).var_types,
            final(self).ref_sources == old(self).ref_sources,
            final(self).manually_freed == old(self).manually_freed,
            final(self).unsafe_depth == old(self).unsafe_depth,
            final(self).unknown_kind == old(self).unknown_kind,
    {
        self.borrowed_imm.clear();
        self.borrowed_mut.clear();
        let mut i: usize = 0;
        while i < self.active_borrows.len()
            invariant
                i <= self.active_borrows@.len(),
                self.active_borrows@ == old(self).active_borrows@,
                self.moved == old(self).moved,
                self.move_from == old(self).move_from,
                self.move_to == old(self).move_to,
                self.mutable == old(self).mutable,
                self.var_types == old(self).var_types,
                self.ref_sources == old(self).ref_sources,
                self.manually_freed == old(self).manually_freed,
                self.unsafe_depth == old(self).unsafe_depth,
                self.unknown_kind == old(self).unknown_kind,
                self.borrowed_imm.wf(),
                self.borrowed_mut.wf(),
                self.borrowed_imm.view() == borrowed_sources(self.active_borrows@.take(i as int), false),
                self.borrowed_mut.view() == borrowed_sources(self.active_borrows@.take(i as int), true),
            decreases self.active_borrows@.len() - i,
        {
            let ghost pre = self.active_borrows@.take(i as int);
            let ghost post = self.active_borrows@.take(i + 1);
            assert(post =~= pre.push(self.active_borrows@[i as int]));
            if self.active_borrows[i].mutable {
                self.borrowed_mut.insert(self.active_borrows[i].source.as_str());
            } else {
                self.borrowed_imm.insert(self.active_borrows[i].source.as_str());
            }
            proof { lemma_borrowed_sources_push(pre, self.active_borrows@[i as int]); }
            i = i + 1;
        }
        assert(self.active_borrows@.take(self.active_borrows@.len() as int) =~= self.active_borrows@);
    }

    /// Ends every borrow.
    pub fn clear_borrows(&mut self)
        requires
            old(self).wf(),
        ensures
            final(self).wf(),
            final(self).active_borrows@.len() == 0,
            final(self).borrowed_imm.view() == Set::<Seq<char>>::empty(),
            final(self).borrowed_mut.view() == Set::<Seq<char>>::empty(),
            final(self).moved == old(self).moved,
            final(self).move_from == old(self).move_from,
            final(self).move_to == old(self).move_to,
            final(self).mutable == old(self).mutable,
            final(self).var_types == old(self).var_types,
            final(self).ref_sources == old(self).ref_sources,
            final(self).manually_freed == old(self).manually_freed,
            final(self).unsafe_depth == old(self).unsafe_depth,
            final(self).unknown_kind == old(self).unknown_kind,
    {
        self.active_borrows.clear();
        self.borrowed_imm.clear();
        self.borrowed_mut.clear();
        assert(borrowed_sources(self.active_borrows@, false) =~= Set::<Seq<char>>::empty());
        assert(borrowed_sources(self.active_borrows@, true) =~= Set::<Seq<char>>::empty());
    }

    /// Drops the borrows that expired before statement `stmt_idx` (NLL).
    pub fn expire_borrows_before(&mut self, stmt_idx: usize)
        requires
            old(self).wf(),
        ensures
            final(self).wf(),
            final(self).active_borrows@ == live_at(old(self).active_borrows@, stmt_idx),
            final(self).moved == old(self).moved,
            final(self).move_from == old(self).move_from,
            final(self).move_to == old(self).move_to,
            final(self).mutable == old(self).mutable,
            final(self).var_types == old(self).var_types,
            final(self).ref_sources == old(self).ref_sources,
            final(self).manually_freed == old(self).manually_freed,
            final(self).unsafe_depth == old(self).unsafe_depth,
            final(self).unknown_kind == old(self).unknown_kind,
    {
        let mut kept: Vec<ActiveBorrow> = Vec::new();
        let ghost bs = self.active_borrows@;
        let mut i: usize = 0;
        while i < self.active_borrows.len()
            invariant
                i <= bs.len(),
                bs == self.active_borrows@,
                kept@ == live_at(bs.take(i as int), stmt_idx),
            decreases bs.len() - i,
        {
            assert(bs.take(i + 1).drop_last() =~= bs.take(i as int));
            proof {
                reveal_with_fuel(Seq::<_>::filter, 1);
            }
            if self.active_borrows[i].expires_after >= stmt_idx {
                kept.push(self.active_borrows[i].duplicate());
            }
            i = i + 1;
        }
        assert(bs.take(bs.len() as int) =~= bs);
        self.active_borrows = kept;
        self.rebuild_borrow_sets();
    }

    /// Records a borrow of `source`, replacing any earlier borrow of it.
    pub fn add_borrow(&mut self, source: &str, mutable: bool, expires_after: usize, borrower: Option<&str>)
        requires
            old(self).wf(),
        ensures
            final(self).wf(),
            final(self).active_borrows@.drop_last() == without_source(old(self).active_borrows@, source@),
            final(self).active_borrows@.len() > 0,
            final(self).active_borrows@.last().source@ == source@,
            final(self).active_borrows@.last().mutable == mutable,
            final(self).active_borrows@.last().expires_after == expires_after,
            match borrower {
                Some(b) => final(self).active_borrows@.last().borrower matches Some(s) && s@ == b@,
                None => final(self).active_borrows@.last().borrower is None,
            },
            final(self).moved == old(self).moved,
            final(self).move_from == old(self).move_from,
            final(self).move_to == old(self).move_to,
            final(self).mutable == old(self).mutable,
            final(self).var_types == old(self).var_types,
            final(self).ref_sources == old(self).ref_sources,
            final(self).manually_freed == old(self).manually_freed,
            final(self).unsafe_depth == old(self).unsafe_depth,
            final(self).unknown_kind == old(self).unknown_kind,
    {
        let mut kept: Vec<ActiveBorrow> = Vec::new();
        let ghost bs = self.active_borrows@;
        let mut i: usize = 0;
        while i < self.active_borrows.len()
            invariant
                i <= bs.len(),
                bs == self.active_borrows@,
                kept@ == without_source(bs.take(i as int), source@),
            decreases bs.len() - i,
        {
            assert(bs.take(i + 1).drop_last() =~= bs.take(i as int));
            proof {
                reveal_with_fuel(Seq::<_>::filter, 1);
            }
            if !str_eq(self.active_borrows[i].source.as_str(), source) {
                kept.push(self.active_borrows[i].duplicate());
            }
            i = i + 1;
        }
        assert(bs.take(bs.len() as int) =~= bs);
        let b = match borrower {
            Some(s) => Some(String::from_str(s)),
            None => None,
        };
        let ghost before = kept@;
        kept.push(ActiveBorrow { source: String::from_str(source), borrower: b, mutable, expires_after });
        assert(kept@.drop_last() =~= before);
        self.active_borrows = kept;
        self.rebuild_borrow_sets();
    }
}

/// Moves after merging two branches into `s`: a binding moved on both
/// branches is moved afterwards (with the first branch's origin).
pub open spec fn merged_moves(
    s: Map<Seq<char>, MoveOrigin>,
    a: Map<Seq<char>, MoveOrigin>,
    b: Map<Seq<char>, MoveOrigin>,
) -> Map<Seq<char>, MoveOrigin> {
    Map::new(
        |k: Seq<char>| s.contains_key(k) || (a.contains_key(k) && b.contains_key(k)),
        |k: Seq<char>| if a.contains_key(k) && b.contains_key(k) { a[k] } else { s[k] },
    )
}

/// `m` without any edge from or into `name`.
pub open spec fn without_edges(m: Map<Seq<char>, String>, name: Seq<char>) -> Map<Seq<char>, String> {
    Map::new(
        |k: Seq<char>| m.contains_key(k) && k != name && m[k]@ != name,
        |k: Seq<char>| m[k],
    )
}

impl BorrowState {
    /// After an `if`/`else`: a binding moved on both branches is moved.
    pub fn merge_branches(&mut self, a: &BorrowState, b: &BorrowState)
        requires
            old(self).wf(),
            a.wf(),
            b.wf(),
        ensures
            final(self).wf(),
            final(self).moved.view() == merged_moves(old(self).moved.view(), a.moved.view(), b.moved.view()),
            final(self).active_borrows@ == old(self).active_borrows@,
            final(self).borrowed_imm == old(self).borrowed_imm,
            final(self).borrowed_mut == old(self).borrowed_mut,
            final(self).move_from == old(self).move_from,
            final(self).move_to == old(self).move_to,
            final(self).mutable == old(self).mutable,
            final(self).var_types == old(self).var_types,
            final(self).ref_sources == old(self).ref_sources,
            final(self).manually_freed == old(self).manually_freed,
            final(self).unsafe_depth == old(self).unsafe_depth,
            final(self).unknown_kind == old(self).unknown_kind,
    {
        let ghost es = a.moved.entries@;
        let ghost s0 = old(self).moved.view();
        proof {
            crate::names::lemma_map_of_get(es);
            assert(merged_moves(s0, crate::names::map_of(es.take(0)), b.moved.view()) =~= s0);
        }
        let mut i: usize = 0;
        while i < a.moved.entries.len()
            invariant
                a.wf(),
                b.wf(),
                es == a.moved.entries@,
                i <= es.len(),
                self.moved.wf(),
                self.moved.view() == merged_moves(s0, crate::names::map_of(es.take(i as int)), b.moved.view()),
                self.active_borrows@ == old(self).active_borrows@,
                self.borrowed_imm == old(self).borrowed_imm,
                self.borrowed_mut == old(self).borrowed_mut,
                self.move_from == old(self).move_from,
                self.move_to == old(self).move_to,
                self.mutable == old(self).mutable,
                self.var_types == old(self).var_types,
                self.ref_sources == old(self).ref_sources,
                self.manually_freed == old(self).manually_freed,
                self.unsafe_depth == old(self).unsafe_depth,
                self.unknown_kind == old(self).unknown_kind,
            decreases es.len() - i,
        {
            let ghost pre = es.take(i as int);
            let ghost post = es.take(i + 1);
            assert(post.drop_last() =~= pre);
            assert(post.last() == es[i as int]);
            let ghost cur = self.moved.view();
            let key = a.moved.entries[i].0.as_str();
            if b.moved.contains_key(key) {
                let v = a.moved.entries[i].1.duplicate();
                self.moved.insert(key, v);
                assert(self.moved.view() =~= merged_moves(s0, crate::names::map_of(post), b.moved.view()));
            } else {
                assert(self.moved.view() =~= merged_moves(s0, crate::names::map_of(post), b.moved.view()));
            }
            i = i + 1;
        }
        proof {
            assert(es.take(es.len() as int) =~= es);
        }
    }

    /// Drops stale move/ref edges of `name` when it is shadowed by a new `let`.
    pub fn clear_provenance_for(&mut self, name: &str)
        requires
            old(self).wf(),
        ensures
            final(self).wf(),
            final(self).move_from.view() == old(self).move_from.view().remove(name@),
            final(self).ref_sources.view() == old(self).ref_sources.view().remove(name@),
            final(self).move_to.view() == without_edges(old(self).move_to.view(), name@),
            final(self).moved == old(self).moved,
            final(self).active_borrows@ == old(self).active_borrows@,
            final(self).borrowed_imm == old(self).borrowed_imm,
            final(self).borrowed_mut == old(self).borrowed_mut,
            final(self).mutable == old(self).mutable,
            final(self).var_types == old(self).var_types,
            final(self).manually_freed == old(self).manually_freed,
            final(self).unsafe_depth == old(self).unsafe_depth,
            final(self).unknown_kind == old(self).unknown_kind,
    {
        self.move_from.remove(name);
        self.ref_sources.remove(name);
        let ghost es = self.move_to.entries@;
        let ghost m0 = self.move_to.view();
        let mut kept: Vec<(String, String)> = Vec::new();
        let mut i: usize = 0;
        assert(without_edges(crate::names::map_of(es.take(0)), name@) =~= crate::names::map_of(kept@));
        while i < self.move_to.entries.len()
            invariant
                es == self.move_to.entries@,
                crate::names::keys_unique(es),
                m0 == crate::names::map_of(es),
                i <= es.len(),
                crate::names::keys_unique(kept@),
                crate::names::map_of(kept@) == without_edges(crate::names::map_of(es.take(i as int)), name@),
            decreases es.len() - i,
        {
            let ghost pre = es.take(i as int);
            let ghost e = es[i as int];
            assert(es.take(i + 1).drop_last() =~= pre);
            assert(crate::names::keys_unique(pre));
            proof {
                crate::names::lemma_map_of_get(pre);
                if crate::names::map_of(pre).contains_key(e.0@) {
                    let t = choose|t: int| 0 <= t < pre.len() && pre[t].0@ == e.0@;
                    assert(es[t].0@ != es[i as int].0@);
                }
            }
            let k = &self.move_to.entries[i].0;
            let v = &self.move_to.entries[i].1;
            if !str_eq(k.as_str(), name) && !str_eq(v.as_str(), name) {
                let ghost before = kept@;
                proof { crate::names::lemma_map_of_get(before); }
                kept.push((k.clone(), v.clone()));
                assert(kept@.drop_last() =~= before);
                assert(kept@.last() == e);
                assert(crate::names::keys_unique(kept@)) by {
                    assert forall|x: int, y: int| 0 <= x < y < kept@.len() implies #[trigger] kept@[x].0@ != #[trigger] kept@[y].0@ by {
                        assert(kept@[x] == before[x]);
                        if y < before.len() {
                            assert(kept@[y] == before[y]);
                        } else {
                            assert(crate::names::map_of(before).contains_key(before[x].0@));
                        }
                    }
                }
                assert(crate::names::map_of(kept@) =~= without_edges(crate::names::map_of(es.take(i + 1)), name@));
            } else {
                assert(crate::names::map_of(kept@) =~= without_edges(crate::names::map_of(es.take(i + 1)), name@));
            }
            i = i + 1;
        }
        assert(es.take(es.len() as int) =~= es);
        self.move_to = NameMap { entries: kept };
    }

    /// Checks and records a borrow `&name` (`&mut name` when `mutable`) that
    /// lasts through statement `stmt_idx`.
    pub fn register_borrow(&mut self, name: &str, mutable: bool, stmt_idx: usize) -> (r: Result<(), BorrowError>)
        requires
            old(self).wf(),
        ensures
            final(self).wf(),
            match r {
                Err(BorrowError::CannotBorrowMoved { name: n }) => n@ == name@
                    && old(self).moved.view().contains_key(name@),
                Err(BorrowError::CannotBorrowMutAlias { name: n }) => n@ == name@ && mutable
                    && !old(self).moved.view().contains_key(name@) && old(self).is_borrowed(name@),
                Err(BorrowError::CannotBorrowWhileMutBorrowed { name: n }) => n@ == name@ && !mutable
                    && !old(self).moved.view().contains_key(name@)
                    && old(self).borrowed_mut.view().contains(name@),
                Err(_) => false,
                Ok(()) => !old(self).moved.view().contains_key(name@)
                    && (mutable ==> !old(self).is_borrowed(name@))
                    && (!mutable ==> !old(self).borrowed_mut.view().contains(name@)),
            },
            r is Err ==> *final(self) == *old(self),
            r is Ok ==> {
                &&& final(self).active_borrows@.len() > 0
                &&& final(self).active_borrows@.drop_last() == without_source(old(self).active_borrows@, name@)
                &&& final(self).active_borrows@.last().source@ == name@
                &&& final(self).active_borrows@.last().mutable == mutable
                &&& final(self).active_borrows@.last().expires_after == stmt_idx
                &&& final(self).active_borrows@.last().borrower is None
                &&& final(self).moved == old(self).moved
                &&& final(self).move_from == old(self).move_from
                &&& final(self).move_to == old(self).move_to
                &&& final(self).mutable == old(self).mutable
                &&& final(self).var_types == old(self).var_types
                &&& final(self).ref_sources == old(self).ref_sources
                &&& final(self).manually_freed == old(self).manually_freed
                &&& final(self).unsafe_depth == old(self).unsafe_depth
                &&& final(self).unknown_kind == old(self).unknown_kind
            },
    {
        if self.moved.contains_key(name) {
            return Err(BorrowError::CannotBorrowMoved { name: String::from_str(name) });
        }
        if mutable {
            if self.borrowed_imm.contains(name) || self.borrowed_mut.contains(name) {
                return Err(BorrowError::CannotBorrowMutAlias { name: String::from_str(name) });
            }
        } else if self.borrowed_mut.contains(name) {
            return Err(BorrowError::CannotBorrowWhileMutBorrowed { name: String::from_str(name) });
        }
        self.add_borrow(name, mutable, stmt_idx, None);
        Ok(())
    }
}

/// `new` is `old` with the entry for `k` set to a string of text `v`.
pub open spec fn text_map_updated(
    new: Map<Seq<char>, String>,
    old: Map<Seq<char>, String>,
    k: Seq<char>,
    v: Seq<char>,
) -> bool {
    &&& new.dom() == old.dom().insert(k)
    &&& new[k]@ == v
    &&& forall|j: Seq<char>| j != k && #[trigger] old.contains_key(j) ==> new[j] == old[j]
}

/// Follows the edges of `m` from `x`, at most `fuel` steps.
pub open spec fn follow(m: Map<Seq<char>, String>, x: Seq<char>, fuel: nat) -> Seq<char>
    decreases fuel,
{
    if fuel == 0 || !m.contains_key(x) {
        x
    } else {
        follow(m, m[x]@, (fuel - 1) as nat)
    }
}

/// Walks the edges of `m` backwards from `x` (at most `fuel` steps) and lists
/// the bindings root first, ending with `x`.
pub open spec fn back_chain(m: Map<Seq<char>, String>, x: Seq<char>, fuel: nat) -> Seq<Seq<char>>
    decreases fuel,
{
    if fuel == 0 || !m.contains_key(x) {
        seq![x]
    } else {
        back_chain(m, m[x]@, (fuel - 1) as nat).push(x)
    }
}

/// Once a walk has reached a binding without an outgoing edge, more steps do
/// not change where it ends.
pub proof fn lemma_follow_settles(m: Map<Seq<char>, String>, x: Seq<char>, f1: nat, f2: nat)
    requires
        f1 <= f2,
        !m.contains_key(follow(m, x, f1)),
    ensures
        follow(m, x, f2) == follow(m, x, f1),
    decreases f1,
{
    if f1 > 0 && m.contains_key(x) {
        lemma_follow_settles(m, m[x]@, (f1 - 1) as nat, (f2 - 1) as nat);
    }
}

/// A backward chain always ends with the binding it started from.
pub proof fn lemma_back_chain_ends(m: Map<Seq<char>, String>, x: Seq<char>, fuel: nat)
    ensures
        back_chain(m, x, fuel).len() >= 1,
        back_chain(m, x, fuel).last() == x,
    decreases fuel,
{
    if fuel > 0 && m.contains_key(x) {
        lemma_back_chain_ends(m, m[x]@, (fuel - 1) as nat);
    }
}

/// Walks `m` from `name` (at most one step per entry).
fn follow_exec(m: &NameMap<String>, name: &str) -> (r: String)
    requires
        m.wf(),
    ensures
        r@ == follow(m.view(), name@, m.entries@.len() as nat),
{
    let mut cur = String::from_str(name);
    let mut fuel: usize = m.len();
    let mut done = false;
    while fuel > 0 && !done
        invariant
            m.wf(),
            follow(m.view(), name@, m.entries@.len() as nat) == follow(m.view(), cur@, fuel as nat),
            done ==> !m.view().contains_key(cur@),
        decreases fuel + (if done { 0int } else { 1int }),
    {
        match m.get(cur.as_str()) {
            Some(next) => {
                cur = next.clone();
                fuel = fuel - 1;
            },
            None => {
                done = true;
            },
        }
    }
    cur
}

/// Walks `m` backwards from `tip`, listing root first.
fn back_chain_exec(m: &NameMap<String>, tip: String) -> (r: Vec<String>)
    requires
        m.wf(),
    ensures
        crate::names::texts(r@) == back_chain(m.view(), tip@, m.entries@.len() as nat),
{
    let ghost t = tip@;
    let mut chain: Vec<String> = Vec::new();
    let mut cur = tip.clone();
    chain.push(tip);
    let mut fuel: usize = m.len();
    proof { lemma_back_chain_ends(m.view(), t, m.entries@.len() as nat); }
    assert(crate::names::texts(chain@) =~= seq![t]);
    assert(back_chain(m.view(), t, m.entries@.len() as nat) =~= back_chain(m.view(), cur@, fuel as nat) + crate::names::texts(chain@).drop_first());
    let mut done = false;
    while fuel > 0 && !done
        invariant
            m.wf(),
            done ==> !m.view().contains_key(cur@),
            chain@.len() >= 1,
            chain@[0]@ == cur@,
            back_chain(m.view(), t, m.entries@.len() as nat) == back_chain(m.view(), cur@, fuel as nat) + crate::names::texts(chain@).drop_first(),
        decreases fuel + (if done { 0int } else { 1int }),
    {
        match m.get(cur.as_str()) {
            Some(src) => {
                let ghost old_chain = chain@;
                let ghost old_cur = cur@;
                chain.insert(0, src.clone());
                cur = src.clone();
                fuel = fuel - 1;
                assert(crate::names::texts(chain@).drop_first() =~= crate::names::texts(old_chain));
                assert(crate::names::texts(old_chain) =~= seq![old_cur] + crate::names::texts(old_chain).drop_first());
                assert(back_chain(m.view(), old_cur, (fuel + 1) as nat) == back_chain(m.view(), cur@, fuel as nat).push(old_cur));
                assert(back_chain(m.view(), t, m.entries@.len() as nat) =~= back_chain(m.view(), cur@, fuel as nat) + crate::names::texts(chain@).drop_first());
            },
            None => {
                done = true;
            },
        }
    }
    assert(back_chain(m.view(), cur@, fuel as nat) == seq![cur@]);
    assert(crate::names::texts(chain@) =~= seq![cur@] + crate::names::texts(chain@).drop_first());
    chain
}

impl BorrowState {
    /// The binding that currently owns the value of `name`, following move
    /// edges (at most one step per recorded move).
    pub fn current_owner_of(&self, name: &str) -> (r: String)
        requires
            self.wf(),
        ensures
            r@ == follow(self.move_to.view(), name@, self.move_to.entries@.len() as nat),
    {
        follow_exec(&self.move_to, name)
    }

    /// Root → … → current owner of the value reachable from `name` by moves.
    pub fn ownership_chain_for(&self, name: &str) -> (r: Vec<String>)
        requires
            self.wf(),
        ensures
            crate::names::texts(r@) == back_chain(
                self.move_from.view(),
                follow(self.move_to.view(), name@, self.move_to.entries@.len() as nat),
                self.move_from.entries@.len() as nat,
            ),
    {
        let tip = self.current_owner_of(name);
        back_chain_exec(&self.move_from, tip)
    }

    /// Root → … → `name` along `let x = &y` borrow edges.
    pub fn borrow_chain_for(&self, name: &str) -> (r: Vec<String>)
        requires
            self.wf(),
        ensures
            crate::names::texts(r@) == back_chain(self.ref_sources.view(), name@, self.ref_sources.entries@.len() as nat),
    {
        back_chain_exec(&self.ref_sources, String::from_str(name))
    }
}

/// The binding that owns the heap value seen through the borrow chain of `name`.
pub open spec fn spec_heap_owner(st: &BorrowState, name: Seq<char>) -> Seq<char> {
    let root = back_chain(st.ref_sources.view(), name, st.ref_sources.entries@.len() as nat)[0];
    if st.var_types.view().contains_key(root) && st.var_types.view()[root].kind == OwnershipKind::Move {
        follow(st.move_to.view(), root, st.move_to.entries@.len() as nat)
    } else {
        root
    }
}

impl BorrowState {
    /// Owner of the heap value behind `name`'s borrow chain.
    pub fn heap_owner_for(&self, name: &str) -> (r: String)
        requires
            self.wf(),
        ensures
            r@ == spec_heap_owner(self, name@),
    {
        let chain = self.borrow_chain_for(name);
        proof { lemma_back_chain_ends(self.ref_sources.view(), name@, self.ref_sources.entries@.len() as nat); }
        assert(chain@.len() >= 1);
        let root = chain[0].clone();
        assert(root@ == crate::names::texts(chain@)[0]);
        let is_move = match self.var_types.get(root.as_str()) {
            Some(info) => info.kind == OwnershipKind::Move,
            None => false,
        };
        if is_move {
            self.current_owner_of(root.as_str())
        } else {
            root
        }
    }

    /// Decides a move of `name` passed to `callee`: mutable bindings (unless
    /// moved explicitly) and Copy bindings are not moved; a borrowed binding
    /// cannot be moved; otherwise it is recorded as moved into `callee`.
    pub fn try_move_on_call(&mut self, name: &str, explicit: bool, callee: &str, call_span: Span) -> (r: Result<(), BorrowError>)
        requires
            old(self).wf(),
        ensures
            final(self).wf(),
            final(self).unsafe_depth == old(self).unsafe_depth,
            final(self).unknown_kind == old(self).unknown_kind,
            ({
                let skip = (!explicit && old(self).mutable.view().contains(name@))
                    || old(self).kind_of_var(name@) == OwnershipKind::Copy;
                if skip {
                    r is Ok && *final(self) == *old(self)
                } else if old(self).is_borrowed(name@) {
                    r matches Err(BorrowError::MoveWhileBorrowed { name: n }) && n@ == name@
                        && *final(self) == *old(self)
                } else {
                    &&& r is Ok
                    &&& final(self).moved.view().dom() == old(self).moved.view().dom().insert(name@)
                    &&& final(self).moved.view()[name@].call_span == call_span
                    &&& final(self).moved.view()[name@].callee matches Some(c) && c@ == callee@
                    &&& forall|k: Seq<char>| k != name@ && #[trigger] old(self).moved.view().contains_key(k)
                        ==> final(self).moved.view()[k] == old(self).moved.view()[k]
                    &&& final(self).active_borrows@ == old(self).active_borrows@
                    &&& final(self).borrowed_imm == old(self).borrowed_imm
                    &&& final(self).borrowed_mut == old(self).borrowed_mut
                    &&& final(self).mutable == old(self).mutable
                    &&& final(self).var_types == old(self).var_types
                    &&& final(self).move_from == old(self).move_from
                    &&& final(self).move_to == old(self).move_to
                    &&& final(self).ref_sources == old(self).ref_sources
                    &&& final(self).manually_freed == old(self).manually_freed
                }
            }),
    {
        if !explicit && self.mutable.contains(name) {
            return Ok(());
        }
        if self.ownership_of_var(name) == OwnershipKind::Copy {
            return Ok(());
        }
        if self.borrowed_imm.contains(name) || self.borrowed_mut.contains(name) {
            return Err(BorrowError::MoveWhileBorrowed { name: String::from_str(name) });
        }
        let origin = record_move_origin(Some(callee), call_span);
        self.moved.insert(name, origin);
        Ok(())
    }

    /// Error for assigning to `name` while it is borrowed, if it is.
    pub fn assign_conflict(&self, name: &str) -> (r: Option<BorrowError>)
        requires
            self.wf(),
        ensures
            match r {
                Some(BorrowError::AssignWhileBorrowed { name: n, mutably }) => n@ == name@
                    && self.is_borrowed(name@) && mutably == self.borrowed_mut.view().contains(name@),
                Some(_) => false,
                None => !self.is_borrowed(name@),
            },
    {
        let m = self.borrowed_mut.contains(name);
        if self.borrowed_imm.contains(name) || m {
            Some(BorrowError::AssignWhileBorrowed { name: String::from_str(name), mutably: m })
        } else {
            None
        }
    }

    /// Error for reading `name` here: moved, mutably borrowed or borrowed.
    pub fn use_conflict(&self, name: &str) -> (r: Option<BorrowError>)
        requires
            self.wf(),
        ensures
            match r {
                Some(BorrowError::UseAfterMove { name: n, callee }) => n@ == name@
                    && self.moved.view().contains_key(name@) && callee == self.moved.view()[name@].callee,
                Some(BorrowError::UseWhileMutBorrowed { name: n }) => n@ == name@
                    && !self.moved.view().contains_key(name@)
                    && self.borrowed_mut.view().contains(name@),
                Some(BorrowError::UseWhileBorrowed { name: n }) => n@ == name@
                    && !self.moved.view().contains_key(name@)
                    && !self.borrowed_mut.view().contains(name@)
                    && self.borrowed_imm.view().contains(name@),
                Some(_) => false,
                None => !self.moved.view().contains_key(name@) && !self.is_borrowed(name@),
            },
    {
        if let Some(origin) = self.moved.get(name) {
            Some(BorrowError::UseAfterMove { name: String::from_str(name), callee: origin.duplicate().callee })
        } else if self.borrowed_mut.contains(name) {
            Some(BorrowError::UseWhileMutBorrowed { name: String::from_str(name) })
        } else if self.borrowed_imm.contains(name) {
            Some(BorrowError::UseWhileBorrowed { name: String::from_str(name) })
        } else {
            None
        }
    }

    /// Records `name` as moved.
    pub fn mark_moved(&mut self, name: &str, origin: MoveOrigin)
        requires
            old(self).wf(),
        ensures
            final(self).wf(),
            final(self).moved.view() == old(self).moved.view().insert(name@, origin),
            final(self).active_borrows@ == old(self).active_borrows@,
            final(self).borrowed_imm == old(self).borrowed_imm,
            final(self).borrowed_mut == old(self).borrowed_mut,
            final(self).move_from == old(self).move_from,
            final(self).move_to == old(self).move_to,
            final(self).mutable == old(self).mutable,
            final(self).var_types == old(self).var_types,
            final(self).ref_sources == old(self).ref_sources,
            final(self).unsafe_depth == old(self).unsafe_depth,
            final(self).unknown_kind == old(self).unknown_kind,
    {
        self.moved.insert(name, origin);
    }

    /// Declares binding `name` with its type information (`mut` when `mutable`).
    pub fn declare_var(&mut self, name: &str, info: VarInfo, mutable: bool)
        requires
            old(self).wf(),
        ensures
            final(self).wf(),
            final(self).var_types.view() == old(self).var_types.view().insert(name@, info),
            final(self).mutable.view() == (if mutable { old(self).mutable.view().insert(name@) } else { old(self).mutable.view() }),
            final(self).moved == old(self).moved,
            final(self).active_borrows@ == old(self).active_borrows@,
            final(self).borrowed_imm == old(self).borrowed_imm,
            final(self).borrowed_mut == old(self).borrowed_mut,
            final(self).move_from == old(self).move_from,
            final(self).move_to == old(self).move_to,
            final(self).ref_sources == old(self).ref_sources,
            final(self).unsafe_depth == old(self).unsafe_depth,
            final(self).unknown_kind == old(self).unknown_kind,
    {
        self.var_types.insert(name, info);
        if mutable {
            self.mutable.insert(name);
        }
    }

    /// Records the provenance of `let dest = src` when it moves `src`.
    pub fn record_let_move(&mut self, dest: &str, src: &str)
        requires
            old(self).wf(),
        ensures
            final(self).wf(),
            text_map_updated(final(self).move_from.view(), old(self).move_from.view(), dest@, src@),
            text_map_updated(final(self).move_to.view(), old(self).move_to.view(), src@, dest@),
            final(self).moved == old(self).moved,
            final(self).active_borrows@ == old(self).active_borrows@,
            final(self).borrowed_imm == old(self).borrowed_imm,
            final(self).borrowed_mut == old(self).borrowed_mut,
            final(self).var_types == old(self).var_types,
            final(self).ref_sources == old(self).ref_sources,
            final(self).mutable == old(self).mutable,
            final(self).manually_freed == old(self).manually_freed,
            final(self).unsafe_depth == old(self).unsafe_depth,
            final(self).unknown_kind == old(self).unknown_kind,
    {
        self.move_from.insert(dest, String::from_str(src));
        self.move_to.insert(src, String::from_str(dest));
    }
}

proof fn lemma_borrowed_sources_push(bs: Seq<ActiveBorrow>, b: ActiveBorrow)
    ensures
        borrowed_sources(bs.push(b), b.mutable) == borrowed_sources(bs, b.mutable).insert(b.source@),
        borrowed_sources(bs.push(b), !b.mutable) == borrowed_sources(bs, !b.mutable),
{
    let p = bs.push(b);
    assert(p[bs.len() as int] == b);
    assert forall|n: Seq<char>| #[trigger] borrowed_sources(bs, b.mutable).contains(n) implies borrowed_sources(p, b.mutable).contains(n) by {
        let i = choose|i: int| 0 <= i < bs.len() && #[trigger] bs[i].source@ == n && bs[i].mutable == b.mutable;
        assert(p[i] == bs[i]);
    }
    assert forall|n: Seq<char>| #[trigger] borrowed_sources(p, b.mutable).contains(n) implies borrowed_sources(bs, b.mutable).insert(b.source@).contains(n) by {
        let i = choose|i: int| 0 <= i < p.len() && #[trigger] p[i].source@ == n && p[i].mutable == b.mutable;
        if i < bs.len() {
            assert(p[i] == bs[i]);
        }
    }
    assert(borrowed_sources(p, b.mutable) =~= borrowed_sources(bs, b.mutable).insert(b.source@));
    let other = !b.mutable;
    let so = borrowed_sources(bs, other);
    let po = borrowed_sources(p, other);
    assert forall|n: Seq<char>| #[trigger] so.contains(n) implies po.contains(n) by {
        let i = choose|i: int| 0 <= i < bs.len() && #[trigger] bs[i].source@ == n && bs[i].mutable == other;
        assert(p[i] == bs[i]);
    }
    assert forall|n: Seq<char>| #[trigger] po.contains(n) implies so.contains(n) by {
        let i = choose|i: int| 0 <= i < p.len() && #[trigger] p[i].source@ == n && p[i].mutable == other;
        assert(i < bs.len());
        assert(p[i] == bs[i]);
    }
    assert(po =~= so);
}


/// No two borrows in `bs` have the same source.
pub open spec fn one_per_source(bs: Seq<ActiveBorrow>) -> bool {
    forall|i: int, j: int| 0 <= i < j < bs.len() ==> (#[trigger] bs[i]).source@ != (#[trigger] bs[j]).source@
}

/// Keeping some borrows of a list with one borrow per source keeps that property.
pub proof fn lemma_filter_one_per_source(bs: Seq<ActiveBorrow>, p: spec_fn(ActiveBorrow) -> bool)
    requires
        one_per_source(bs),
    ensures
        one_per_source(bs.filter(p)),
    decreases bs.len(),
{
    reveal(Seq::filter);
    if bs.len() > 0 {
        let rest = bs.drop_last();
        assert(one_per_source(rest)) by {
            assert forall|i: int, j: int| 0 <= i < j < rest.len() implies (#[trigger] rest[i]).source@ != (#[trigger] rest[j]).source@ by {
                assert(rest[i] == bs[i] && rest[j] == bs[j]);
            }
        }
        lemma_filter_one_per_source(rest, p);
        let fr = rest.filter(p);
        if p(bs.last()) {
            let out = fr.push(bs.last());
            assert forall|i: int, j: int| 0 <= i < j < out.len() implies (#[trigger] out[i]).source@ != (#[trigger] out[j]).source@ by {
                if j == out.len() - 1 {
                    assert(fr.contains(out[i]));
                    rest.lemma_filter_contains_rev(p, out[i]);
                    let k = choose|k: int| 0 <= k < rest.len() && rest[k] == out[i];
                    assert(bs[k] == rest[k]);
                    assert(bs[bs.len() - 1] == bs.last());
                } else {
                    assert(out[i] == fr[i] && out[j] == fr[j]);
                }
            }
        }
    }
}

/// Law: adding a borrow of `b.source` (dropping the earlier borrows of that
/// source, as `add_borrow` does) keeps at most one active borrow per source;
/// and so does expiring borrows.
pub proof fn lemma_add_borrow_one_per_source(bs: Seq<ActiveBorrow>, b: ActiveBorrow, idx: usize)
    requires
        one_per_source(bs),
    ensures
        one_per_source(without_source(bs, b.source@).push(b)),
        one_per_source(live_at(bs, idx)),
{
    lemma_filter_one_per_source(bs, |x: ActiveBorrow| x.source@ != b.source@);
    lemma_filter_one_per_source(bs, |x: ActiveBorrow| x.expires_after >= idx);
    let w = without_source(bs, b.source@);
    let out = w.push(b);
    assert forall|i: int, j: int| 0 <= i < j < out.len() implies (#[trigger] out[i]).source@ != (#[trigger] out[j]).source@ by {
        if j == out.len() - 1 {
            assert(out[i] == w[i]);
            bs.lemma_filter_pred(|x: ActiveBorrow| x.source@ != b.source@, i);
        } else {
            assert(out[i] == w[i] && out[j] == w[j]);
        }
    }
}

impl VarInfo {
    /// A copy of this information.
    pub fn duplicate(&self) -> (r: VarInfo)
        ensures
            r == *self,
    {
        VarInfo { label: self.label.clone(), kind: self.kind, is_ref: self.is_ref }
    }
}

fn dup_origins(m: &NameMap<MoveOrigin>) -> (r: NameMap<MoveOrigin>)
    ensures
        r.entries@ == m.entries@,
{
    let mut v: Vec<(String, MoveOrigin)> = Vec::new();
    let mut i: usize = 0;
    while i < m.entries.len()
        invariant
            i <= m.entries@.len(),
            v@ == m.entries@.take(i as int),
        decreases m.entries@.len() - i,
    {
        let e = &m.entries[i];
        v.push((e.0.clone(), e.1.duplicate()));
        assert(v@ =~= m.entries@.take(i + 1));
        i = i + 1;
    }
    assert(v@ =~= m.entries@);
    NameMap { entries: v }
}

fn dup_names(m: &NameMap<String>) -> (r: NameMap<String>)
    ensures
        r.entries@ == m.entries@,
{
    let mut v: Vec<(String, String)> = Vec::new();
    let mut i: usize = 0;
    while i < m.entries.len()
        invariant
            i <= m.entries@.len(),
            v@ == m.entries@.take(i as int),
        decreases m.entries@.len() - i,
    {
        let e = &m.entries[i];
        v.push((e.0.clone(), e.1.clone()));
        assert(v@ =~= m.entries@.take(i + 1));
        i = i + 1;
    }
    assert(v@ =~= m.entries@);
    NameMap { entries: v }
}

fn dup_infos(m: &NameMap<VarInfo>) -> (r: NameMap<VarInfo>)
    ensures
        r.entries@ == m.entries@,
{
    let mut v: Vec<(String, VarInfo)> = Vec::new();
    let mut i: usize = 0;
    while i < m.entries.len()
        invariant
            i <= m.entries@.len(),
            v@ == m.entries@.take(i as int),
        decreases m.entries@.len() - i,
    {
        let e = &m.entries[i];
        v.push((e.0.clone(), e.1.duplicate()));
        assert(v@ =~= m.entries@.take(i + 1));
        i = i + 1;
    }
    assert(v@ =~= m.entries@);
    NameMap { entries: v }
}

/// A copy of a list of borrows.
pub fn dup_borrows(bs: &Vec<ActiveBorrow>) -> (r: Vec<ActiveBorrow>)
    ensures
        r@ == bs@,
{
    let mut v: Vec<ActiveBorrow> = Vec::new();
    let mut i: usize = 0;
    while i < bs.len()
        invariant
            i <= bs@.len(),
            v@ == bs@.take(i as int),
        decreases bs@.len() - i,
    {
        v.push(bs[i].duplicate());
        assert(v@ =~= bs@.take(i + 1));
        i = i + 1;
    }
    assert(v@ =~= bs@);
    v
}

/// `a` and `b` hold the same bindings, moves, borrows and provenance.
pub open spec fn same_state(a: BorrowState, b: BorrowState) -> bool {
    &&& b.moved.entries@ == a.moved.entries@
    &&& b.move_from.entries@ == a.move_from.entries@
    &&& b.move_to.entries@ == a.move_to.entries@
    &&& b.mutable.names@ == a.mutable.names@
    &&& b.active_borrows@ == a.active_borrows@
    &&& b.borrowed_imm.names@ == a.borrowed_imm.names@
    &&& b.borrowed_mut.names@ == a.borrowed_mut.names@
    &&& b.var_types.entries@ == a.var_types.entries@
    &&& b.ref_sources.entries@ == a.ref_sources.entries@
    &&& b.manually_freed.names@ == a.manually_freed.names@
    &&& b.unsafe_depth == a.unsafe_depth
    &&& b.unknown_kind == a.unknown_kind
}

impl BorrowState {
    /// An independent copy of this state (for checking one branch).
    pub fn fork(&self) -> (r: BorrowState)
        requires
            self.wf(),
        ensures
            r.wf(),
            same_state(*self, r),
            r.moved@ == self.moved@,
            r.var_types@ == self.var_types@,
            r.mutable@ == self.mutable@,
            r.borrowed_imm@ == self.borrowed_imm@,
            r.borrowed_mut@ == self.borrowed_mut@,
    {
        BorrowState {
            moved: dup_origins(&self.moved),
            move_from: dup_names(&self.move_from),
            move_to: dup_names(&self.move_to),
            mutable: self.mutable.duplicate(),
            active_borrows: dup_borrows(&self.active_borrows),
            borrowed_imm: self.borrowed_imm.duplicate(),
            borrowed_mut: self.borrowed_mut.duplicate(),
            var_types: dup_infos(&self.var_types),
            ref_sources: dup_names(&self.ref_sources),
            manually_freed: self.manually_freed.duplicate(),
            unsafe_depth: self.unsafe_depth,
            unknown_kind: self.unknown_kind,
        }
    }
}

/// The diagnostic code of an error, when it has one.
pub open spec fn spec_error_code(e: BorrowError) -> Option<Seq<char>> {
    match e {
        BorrowError::CannotBorrowMoved { .. } => Some("E012"@),
        BorrowError::CannotBorrowMutAlias { .. } => Some("E011"@),
        BorrowError::CannotBorrowWhileMutBorrowed { .. } => Some("E011"@),
        BorrowError::MoveWhileBorrowed { .. } => Some("E029"@),
        BorrowError::AssignWhileBorrowed { .. } => Some("E010"@),
        BorrowError::UseAfterMove { .. } => Some("E012"@),
        BorrowError::UseWhileMutBorrowed { .. } => Some("E011"@),
        BorrowError::UseWhileBorrowed { .. } => Some("E011"@),
        BorrowError::ManualFreeOfOwned { .. } => Some("E030"@),
        BorrowError::BorrowsActiveAt { .. } => Some("E028"@),
        BorrowError::OwnershipProblem { .. } => None,
    }
}

/// The text of an error.
pub open spec fn spec_error_message(e: BorrowError) -> Seq<char> {
    match e {
        BorrowError::CannotBorrowMoved { name } => "cannot borrow moved value `"@ + name@ + "`"@,
        BorrowError::CannotBorrowMutAlias { name } => "cannot borrow `"@ + name@ + "` as mutable (`&mut` aliasing rule)"@,
        BorrowError::CannotBorrowWhileMutBorrowed { name } => "cannot borrow `"@ + name@ + "` while it is mutably borrowed"@,
        BorrowError::MoveWhileBorrowed { name } => "cannot move `"@ + name@ + "` while it is borrowed"@,
        BorrowError::AssignWhileBorrowed { name, .. } => "cannot assign to `"@ + name@ + "` because it is borrowed"@,
        BorrowError::UseAfterMove { name, callee } => match callee {
            Some(c) => "`"@ + name@ + "` was moved into `"@ + c@ + "()`"@,
            None => "`"@ + name@ + "` was moved"@,
        },
        BorrowError::UseWhileMutBorrowed { name } => "cannot use `"@ + name@ + "` while it is mutably borrowed"@,
        BorrowError::UseWhileBorrowed { name } => "cannot use `"@ + name@ + "` while it is borrowed"@,
        BorrowError::ManualFreeOfOwned { name } => "manual `free("@ + name@
            + ")` on owned value; Nyra auto-drops at scope end (double-free risk)"@,
        BorrowError::BorrowsActiveAt { site } => spec_site_text(site) + " while references are active"@,
        BorrowError::OwnershipProblem { message } => message@,
    }
}

/// The help line of an error, when it has one.
pub open spec fn spec_error_help(e: BorrowError) -> Option<Seq<char>> {
    match e {
        BorrowError::CannotBorrowMutAlias { .. } => Some("only one active `&mut` borrow is allowed at a time"@),
        BorrowError::CannotBorrowWhileMutBorrowed { .. } => Some(
            "finish using the mutable borrow before creating another borrow"@,
        ),
        BorrowError::MoveWhileBorrowed { name } => Some("drop the borrow before moving, or clone: `clone "@ + name@ + "`"@),
        BorrowError::AssignWhileBorrowed { name, .. } => Some(
            "drop the borrow before assigning, or clone the value: `let copy = clone "@ + name@ + "`"@,
        ),
        BorrowError::UseWhileMutBorrowed { .. } => Some("finish using the mutable borrow before reading this value again"@),
        BorrowError::UseWhileBorrowed { .. } => Some("the immutable borrow must end before this use"@),
        _ => None,
    }
}

/// The note of an error whose note needs no more than the error itself.
pub open spec fn spec_error_note(e: BorrowError) -> Option<Seq<char>> {
    match e {
        BorrowError::ManualFreeOfOwned { .. } => Some("remove `free` unless this is FFI escape hatch code"@),
        BorrowError::BorrowsActiveAt { site: BorrowSite::Spawn } => Some("finish using borrows before spawn"@),
        BorrowError::BorrowsActiveAt { site: BorrowSite::ParallelFor } => Some("finish using borrows before `parallel for`"@),
        _ => None,
    }
}

/// The label at the error's own span, when it has one.
pub open spec fn spec_error_label(e: BorrowError) -> Option<Seq<char>> {
    match e {
        BorrowError::AssignWhileBorrowed { name, mutably } => Some(
            "`"@ + name@ + "` is "@ + (if mutably { "mutably"@ } else { "immutably"@ }) + " borrowed here"@,
        ),
        _ => None,
    }
}

impl BorrowError {
    /// The help line, when the error has one.
    pub fn help(&self) -> (r: Option<String>)
        ensures
            match r {
                Some(h) => spec_error_help(*self) == Some(h@),
                None => spec_error_help(*self) is None,
            },
    {
        match self {
            BorrowError::CannotBorrowMutAlias { .. } => Some(
                String::from_str("only one active `&mut` borrow is allowed at a time"),
            ),
            BorrowError::CannotBorrowWhileMutBorrowed { .. } => Some(
                String::from_str("finish using the mutable borrow before creating another borrow"),
            ),
            BorrowError::MoveWhileBorrowed { name } => Some(
                String::from_str("drop the borrow before moving, or clone: `clone ").concat(name.as_str()).concat("`"),
            ),
            BorrowError::AssignWhileBorrowed { name, .. } => Some(
                String::from_str("drop the borrow before assigning, or clone the value: `let copy = clone ").concat(
                    name.as_str(),
                ).concat("`"),
            ),
            BorrowError::UseWhileMutBorrowed { .. } => Some(
                String::from_str("finish using the mutable borrow before reading this value again"),
            ),
            BorrowError::UseWhileBorrowed { .. } => Some(String::from_str("the immutable borrow must end before this use")),
            _ => None,
        }
    }

    /// The note, for the errors whose note needs no more than the error itself.
    pub fn note(&self) -> (r: Option<String>)
        ensures
            match r {
                Some(h) => spec_error_note(*self) == Some(h@),
                None => spec_error_note(*self) is None,
            },
    {
        match self {
            BorrowError::ManualFreeOfOwned { .. } => Some(
                String::from_str("remove `free` unless this is FFI escape hatch code"),
            ),
            BorrowError::BorrowsActiveAt { site: BorrowSite::Spawn } => Some(
                String::from_str("finish using borrows before spawn"),
            ),
            BorrowError::BorrowsActiveAt { site: BorrowSite::ParallelFor } => Some(
                String::from_str("finish using borrows before `parallel for`"),
            ),
            _ => None,
        }
    }

    /// The label at the error's own span, when it has one.
    pub fn label(&self) -> (r: Option<String>)
        ensures
            match r {
                Some(h) => spec_error_label(*self) == Some(h@),
                None => spec_error_label(*self) is None,
            },
    {
        match self {
            BorrowError::AssignWhileBorrowed { name, mutably } => {
                let how = if *mutably {
                    "mutably"
                } else {
                    "immutably"
                };
                Some(String::from_str("`").concat(name.as_str()).concat("` is ").concat(how).concat(" borrowed here"))
            },
            _ => None,
        }
    }

    /// The diagnostic code (`E0..`), when the error has one.
    pub fn code(&self) -> (r: Option<&'static str>)
        ensures
            match r {
                Some(c) => spec_error_code(*self) == Some(c@),
                None => spec_error_code(*self) is None,
            },
    {
        match self {
            BorrowError::CannotBorrowMoved { .. } => Some("E012"),
            BorrowError::CannotBorrowMutAlias { .. } => Some("E011"),
            BorrowError::CannotBorrowWhileMutBorrowed { .. } => Some("E011"),
            BorrowError::MoveWhileBorrowed { .. } => Some("E029"),
            BorrowError::AssignWhileBorrowed { .. } => Some("E010"),
            BorrowError::UseAfterMove { .. } => Some("E012"),
            BorrowError::UseWhileMutBorrowed { .. } => Some("E011"),
            BorrowError::UseWhileBorrowed { .. } => Some("E011"),
            BorrowError::ManualFreeOfOwned { .. } => Some("E030"),
            BorrowError::BorrowsActiveAt { .. } => Some("E028"),
            BorrowError::OwnershipProblem { .. } => None,
        }
    }

    /// The error's text.
    pub fn message(&self) -> (r: String)
        ensures
            r@ == spec_error_message(*self),
    {
        match self {
            BorrowError::CannotBorrowMoved { name } => String::from_str("cannot borrow moved value `").concat(
                name.as_str(),
            ).concat("`"),
            BorrowError::CannotBorrowMutAlias { name } => String::from_str("cannot borrow `").concat(name.as_str()).concat(
                "` as mutable (`&mut` aliasing rule)",
            ),
            BorrowError::CannotBorrowWhileMutBorrowed { name } => String::from_str("cannot borrow `").concat(
                name.as_str(),
            ).concat("` while it is mutably borrowed"),
            BorrowError::MoveWhileBorrowed { name } => String::from_str("cannot move `").concat(name.as_str()).concat(
                "` while it is borrowed",
            ),
            BorrowError::AssignWhileBorrowed { name, .. } => String::from_str("cannot assign to `").concat(
                name.as_str(),
            ).concat("` because it is borrowed"),
            BorrowError::UseAfterMove { name, callee } => match callee {
                Some(c) => String::from_str("`").concat(name.as_str()).concat("` was moved into `").concat(
                    c.as_str(),
                ).concat("()`"),
                None => String::from_str("`").concat(name.as_str()).concat("` was moved"),
            },
            BorrowError::UseWhileMutBorrowed { name } => String::from_str("cannot use `").concat(name.as_str()).concat(
                "` while it is mutably borrowed",
            ),
            BorrowError::UseWhileBorrowed { name } => String::from_str("cannot use `").concat(name.as_str()).concat(
                "` while it is borrowed",
            ),
            BorrowError::ManualFreeOfOwned { name } => String::from_str("manual `free(").concat(name.as_str()).concat(
                ")` on owned value; Nyra auto-drops at scope end (double-free risk)",
            ),
            BorrowError::BorrowsActiveAt { site } => String::from_str(site.describe()).concat(
                " while references are active",
            ),
            BorrowError::OwnershipProblem { message } => message.clone(),
        }
    }
}

} // verus!
