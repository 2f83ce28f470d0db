//! Ownership inspection reports for `nyra inspect` and `--ownership-verbose`.
use vstd::prelude::*;
use crate::borrow::{
    back_chain, follow, spec_heap_owner, BorrowState, MoveOrigin, OwnershipKind,
};
use crate::names::texts;
use crate::text::str_eq;
use crate::analysis::{lex_lt, lex_lt_exec, lemma_lex_total};
use crate::ast::{spec_stmt_span, stmt_span, Block, Statement};
use crate::num::{decimal_of, decimal_string};

verus! {

/// Point query for `nyra inspect name --at file:line`.
#[derive(Debug, PartialEq)]
pub struct InspectQuery {
    pub file: String,
    pub line: usize,
    pub name: String,
}

/// One hop in the ownership chain (`a ──move──► b`).
#[derive(Debug, PartialEq)]
pub struct ChainHop {
    pub from: String,
    pub to: String,
}

/// One hop in the borrow chain (`myname ◄──borrow── myname2`).
#[derive(Debug, PartialEq)]
pub struct BorrowChainHop {
    pub from: String,
    pub to: String,
}

/// Whether the inspected binding is usable at the queried line.
#[derive(Debug, PartialEq, Eq, Copy, Structural)]
pub enum BindingStatus {
    Valid,
    Moved,
    NotInScope,
}

impl Clone for BindingStatus {
    fn clone(&self) -> (r: Self)
        ensures
            r == *self,
    {
        *self
    }
}

/// How the inspected binding relates to the value at this line.
#[derive(Debug, PartialEq, Eq, Structural)]
pub enum InspectRole {
    /// This binding currently owns the value.
    Owner,
    /// Ownership was moved to another binding.
    MovedAway,
    /// Binding holds a reference; it does not own the heap value.
    Borrower,
    /// Binding is a Copy value.
    CopyBinding,
    NotInScope,
}

/// A binding (or temporary) currently borrowing the inspected one.
#[derive(Debug, PartialEq)]
pub struct BorrowerInfo {
    pub name: String,
    pub mutable: bool,
    pub ty: String,
    pub expires_after_line: usize,
}

/// The binding the inspected reference borrows from.
#[derive(Debug, PartialEq)]
pub struct BorrowSource {
    pub name: String,
    pub mutable: bool,
}

/// When and how the inspected value is dropped.
#[derive(Debug, PartialEq)]
pub struct DropInfo {
    pub at_scope_exit_line: usize,
    pub kind: &'static str,
}

/// Hops between consecutive names of `chain`.
pub open spec fn spec_hops(chain: Seq<Seq<char>>) -> Seq<(Seq<char>, Seq<char>)> {
    Seq::new((if chain.len() >= 1 { chain.len() - 1 } else { 0 }) as nat, |i: int| (chain[i], chain[i + 1]))
}

/// Ownership hops between consecutive names of `chain`.
pub fn chain_hops_from(chain: &[String]) -> (r: Vec<ChainHop>)
    ensures
        r@.map_values(|h: ChainHop| (h.from@, h.to@)) == spec_hops(texts(chain@)),
{
    let mut out: Vec<ChainHop> = Vec::new();
    let mut i: usize = 0;
    while chain.len() > 0 && i < chain.len() - 1
        invariant
            i + 1 <= chain@.len() || (chain@.len() == 0 && i == 0),
            out@.len() == i,
            forall|j: int| 0 <= j < i ==> (#[trigger] out@[j]).from@ == chain@[j]@ && out@[j].to@ == chain@[j + 1]@,
        decreases chain@.len() - i,
    {
        out.push(ChainHop { from: chain[i].clone(), to: chain[i + 1].clone() });
        i = i + 1;
    }
    assert(out@.map_values(|h: ChainHop| (h.from@, h.to@)) =~= spec_hops(texts(chain@)));
    out
}

/// Borrow hops between consecutive names of `chain`.
pub fn borrow_chain_hops_from(chain: &[String]) -> (r: Vec<BorrowChainHop>)
    ensures
        r@.map_values(|h: BorrowChainHop| (h.from@, h.to@)) == spec_hops(texts(chain@)),
{
    let mut out: Vec<BorrowChainHop> = Vec::new();
    let mut i: usize = 0;
    while chain.len() > 0 && i < chain.len() - 1
        invariant
            i + 1 <= chain@.len() || (chain@.len() == 0 && i == 0),
            out@.len() == i,
            forall|j: int| 0 <= j < i ==> (#[trigger] out@[j]).from@ == chain@[j]@ && out@[j].to@ == chain@[j + 1]@,
        decreases chain@.len() - i,
    {
        out.push(BorrowChainHop { from: chain[i].clone(), to: chain[i + 1].clone() });
        i = i + 1;
    }
    assert(out@.map_values(|h: BorrowChainHop| (h.from@, h.to@)) =~= spec_hops(texts(chain@)));
    out
}

/// `names` joined by `sep`.
pub open spec fn join(names: Seq<Seq<char>>, sep: Seq<char>) -> Seq<char>
    decreases names.len(),
{
    if names.len() == 0 {
        seq![]
    } else if names.len() == 1 {
        names[0]
    } else {
        join(names.drop_last(), sep) + sep + names.last()
    }
}

/// The move arrow between ownership-chain names.
pub open spec fn move_arrow() -> Seq<char> {
    " ──move──► "@
}

/// The borrow arrow between borrow-chain names.
pub open spec fn borrow_arrow() -> Seq<char> {
    " ◄──borrow── "@
}

/// Diagram of an ownership chain: `a ──move──► b ──move──► c`.
pub open spec fn spec_chain_diagram(chain: Seq<Seq<char>>) -> Seq<char> {
    if chain.len() == 0 {
        "(none)"@
    } else {
        join(chain, move_arrow())
    }
}

/// Diagram of a borrow chain: `a ◄──borrow── b ◄──borrow── c`.
pub open spec fn spec_borrow_chain_diagram(chain: Seq<Seq<char>>) -> Seq<char> {
    if chain.len() == 0 {
        "(none)"@
    } else {
        join(chain, borrow_arrow())
    }
}

pub fn join_exec(names: &[String], sep: &str) -> (r: String)
    ensures
        r@ == join(texts(names@), sep@),
{
    let mut out = String::new();
    let mut i: usize = 0;
    while i < names.len()
        invariant
            i <= names@.len(),
            out@ == join(texts(names@.take(i as int)), sep@),
        decreases names@.len() - i,
    {
        let ghost pre = texts(names@.take(i as int));
        let ghost post = texts(names@.take(i + 1));
        assert(post.drop_last() =~= pre);
        assert(post.last() == names@[i as int]@);
        if i == 0 {
            out = String::from_str(names[i].as_str());
            assert(post =~= seq![names@[0]@]);
        } else {
            out = out.concat(sep).concat(names[i].as_str());
        }
        i = i + 1;
    }
    assert(names@.take(names@.len() as int) =~= names@);
    out
}

/// Ownership chain as text.
pub fn format_chain_diagram(chain: &[String]) -> (r: String)
    ensures
        r@ == spec_chain_diagram(texts(chain@)),
{
    if chain.len() == 0 {
        return String::from_str("(none)");
    }
    join_exec(chain, " ──move──► ")
}

/// Borrow chain as text.
pub fn format_borrow_chain_diagram(chain: &[String]) -> (r: String)
    ensures
        r@ == spec_borrow_chain_diagram(texts(chain@)),
{
    if chain.len() == 0 {
        return String::from_str("(none)");
    }
    join_exec(chain, " ◄──borrow── ")
}

/// `Copy` / `Move`.
pub open spec fn spec_kind_label(kind: OwnershipKind) -> Seq<char> {
    match kind {
        OwnershipKind::Copy => "Copy"@,
        OwnershipKind::Move => "Move"@,
    }
}

pub fn kind_label(kind: OwnershipKind) -> (r: &'static str)
    ensures
        r@ == spec_kind_label(kind),
{
    match kind {
        OwnershipKind::Copy => "Copy",
        OwnershipKind::Move => "Move",
    }
}

/// `valid` / `moved` / `not in scope`.
pub open spec fn spec_status_label(status: BindingStatus) -> Seq<char> {
    match status {
        BindingStatus::Valid => "valid"@,
        BindingStatus::Moved => "moved"@,
        BindingStatus::NotInScope => "not in scope"@,
    }
}

pub fn status_label(status: BindingStatus) -> (r: &'static str)
    ensures
        r@ == spec_status_label(status),
{
    match status {
        BindingStatus::Valid => "valid",
        BindingStatus::Moved => "moved",
        BindingStatus::NotInScope => "not in scope",
    }
}

/// Final component of a path (`Path::file_name`), when there is one.
pub uninterp spec fn path_file_name(p: Seq<char>) -> Option<Seq<char>>;

/// `Path::new(p).file_name()` as text (`None` also when it is not UTF-8).
#[verifier::external_body]
fn file_name_of(p: &str) -> (r: Option<String>)
    ensures
        match r {
            Some(n) => path_file_name(p@) == Some(n@),
            None => path_file_name(p@) is None,
        },
{
    match std::path::Path::new(p).file_name() {
        Some(os) => match os.to_str() {
            Some(s) => Some(s.to_string()),
            None => None,
        },
        None => None,
    }
}

/// Do a span's file and a queried file name the same file, given the final
/// path component of each (`None` when a path has none)?
pub open spec fn spec_file_names_match(
    span_file: Seq<char>,
    query_file: Seq<char>,
    span_name: Option<Seq<char>>,
    query_name: Option<Seq<char>>,
) -> bool {
    span_file == query_file || (match span_name {
        Some(n) => n,
        None => span_file,
    }) == (match query_name {
        Some(n) => n,
        None => query_file,
    })
}

/// Compares two file references by full path or by final component.
pub fn file_names_match(
    span_file: &str,
    query_file: &str,
    span_name: Option<&str>,
    query_name: Option<&str>,
) -> (r: bool)
    ensures
        r == spec_file_names_match(
            span_file@,
            query_file@,
            match span_name { Some(n) => Some(n@), None => None },
            match query_name { Some(n) => Some(n@), None => None },
        ),
{
    if str_eq(span_file, query_file) {
        return true;
    }
    let a: &str = match span_name {
        Some(n) => n,
        None => span_file,
    };
    let b: &str = match query_name {
        Some(n) => n,
        None => query_file,
    };
    str_eq(a, b)
}

/// Does the span's file match the queried file (same path or same file name)?
pub fn file_matches(span_file: &str, query_file: &str) -> (r: bool)
    ensures
        r == spec_file_names_match(span_file@, query_file@, path_file_name(span_file@), path_file_name(query_file@)),
{
    if str_eq(span_file, query_file) {
        return true;
    }
    let a = file_name_of(span_file);
    let b = file_name_of(query_file);
    let an: Option<&str> = match &a {
        Some(s) => Some(s.as_str()),
        None => None,
    };
    let bn: Option<&str> = match &b {
        Some(s) => Some(s.as_str()),
        None => None,
    };
    file_names_match(span_file, query_file, an, bn)
}

/// Line of each statement of a block and the line at which its scope ends.
#[derive(Debug, PartialEq)]
pub struct BlockLines {
    pub lines: Vec<usize>,
    pub scope_exit_line: usize,
}

/// Ownership snapshot for a single binding.
#[derive(Debug, PartialEq)]
pub struct BindingInspectReport {
    pub name: String,
    pub func: String,
    pub file: String,
    pub line: usize,
    pub ty: String,
    pub kind: OwnershipKind,
    pub binding_status: BindingStatus,
    /// Root → … → current owner (Move bindings only).
    pub ownership_chain: Vec<String>,
    pub chain_hops: Vec<ChainHop>,
    /// Binding that currently owns the heap value (follows move edges).
    pub current_owner: String,
    /// Root → … → tip for reference bindings.
    pub borrow_chain: Vec<String>,
    pub borrow_chain_hops: Vec<BorrowChainHop>,
    /// Move binding that owns the heap value behind a borrow chain.
    pub heap_owner: String,
    pub role: InspectRole,
    pub borrowed_by: Vec<BorrowerInfo>,
    pub borrows_from: Option<BorrowSource>,
    pub move_origin: Option<MoveOrigin>,
    pub moved_to: Option<String>,
    pub moved_from: Option<String>,
    pub drop: Option<DropInfo>,
}

/// The fields of a borrower entry: name, mutability, type text, expiry line.
pub open spec fn borrower_view(b: BorrowerInfo) -> (Seq<char>, bool, Seq<char>, usize) {
    (b.name@, b.mutable, b.ty@, b.expires_after_line)
}

/// Type text shown for a borrow of the given mutability with no named borrower type.
pub open spec fn ref_text(mutable: bool) -> Seq<char> {
    if mutable {
        "&mut"@
    } else {
        "&"@
    }
}

/// The entry shown for active borrow `b`.
pub open spec fn spec_borrower(b: crate::borrow::ActiveBorrow, st: &BorrowState, bl: &BlockLines) -> (Seq<char>, bool, Seq<char>, usize) {
    let expires = if b.expires_after < bl.lines@.len() {
        bl.lines@[b.expires_after as int]
    } else {
        bl.scope_exit_line
    };
    match b.borrower {
        Some(bn) => (
            bn@,
            b.mutable,
            if st.var_types.view().contains_key(bn@) {
                st.var_types.view()[bn@].label@
            } else {
                ref_text(b.mutable)
            },
            expires,
        ),
        None => ("<expr>"@, b.mutable, ref_text(b.mutable), expires),
    }
}

/// Entries for the active borrows of `name`, in borrow order.
pub open spec fn spec_active_borrowers(name: Seq<char>, st: &BorrowState, bl: &BlockLines) -> Seq<(Seq<char>, bool, Seq<char>, usize)> {
    st.active_borrows@.filter(|b: crate::borrow::ActiveBorrow| b.source@ == name).map_values(
        |b: crate::borrow::ActiveBorrow| spec_borrower(b, st, bl),
    )
}

/// The active borrows of `name` with their expiry lines.
pub fn active_borrowers(name: &str, state: &BorrowState, block_lines: &BlockLines) -> (r: Vec<BorrowerInfo>)
    requires
        state.wf(),
    ensures
        r@.map_values(|b: BorrowerInfo| borrower_view(b)) == spec_active_borrowers(name@, state, block_lines),
{
    let ghost bs = state.active_borrows@;
    let mut out: Vec<BorrowerInfo> = Vec::new();
    let mut i: usize = 0;
    while i < state.active_borrows.len()
        invariant
            state.wf(),
            bs == state.active_borrows@,
            i <= bs.len(),
            out@.map_values(|b: BorrowerInfo| borrower_view(b)) == bs.take(i as int).filter(
                |b: crate::borrow::ActiveBorrow| b.source@ == name@,
            ).map_values(|b: crate::borrow::ActiveBorrow| spec_borrower(b, state, block_lines)),
        decreases bs.len() - i,
    {
        let b = &state.active_borrows[i];
        let ghost pre = bs.take(i as int);
        assert(bs.take(i + 1).drop_last() =~= pre);
        proof {
            reveal_with_fuel(Seq::<_>::filter, 1);
        }
        if str_eq(b.source.as_str(), name) {
            let expires_after_line = if b.expires_after < block_lines.lines.len() {
                block_lines.lines[b.expires_after]
            } else {
                block_lines.scope_exit_line
            };
            let info = match &b.borrower {
                Some(bn) => {
                    let ty = match state.var_types.get(bn.as_str()) {
                        Some(vi) => vi.label.clone(),
                        None => if b.mutable { String::from_str("&mut") } else { String::from_str("&") },
                    };
                    BorrowerInfo { name: bn.clone(), mutable: b.mutable, ty, expires_after_line }
                },
                None => BorrowerInfo {
                    name: String::from_str("<expr>"),
                    mutable: b.mutable,
                    ty: if b.mutable { String::from_str("&mut") } else { String::from_str("&") },
                    expires_after_line,
                },
            };
            let ghost before = out@;
            out.push(info);
            assert(out@.map_values(|b: BorrowerInfo| borrower_view(b)) =~= before.map_values(|b: BorrowerInfo| borrower_view(b)).push(spec_borrower(bs[i as int], state, block_lines)));
        } else {
            assert(bs.take(i + 1).filter(|b: crate::borrow::ActiveBorrow| b.source@ == name@) =~= pre.filter(|b: crate::borrow::ActiveBorrow| b.source@ == name@));
        }
        i = i + 1;
    }
    assert(bs.take(bs.len() as int) =~= bs);
    out
}

/// Is `name` a reference binding (borrow edge or reference type)?
pub open spec fn spec_is_borrower(st: &BorrowState, name: Seq<char>) -> bool {
    st.ref_sources.view().contains_key(name) || st.var_types.view()[name].is_ref
}

/// Text of an optional string.
pub open spec fn opt_text(o: Option<String>) -> Option<Seq<char>> {
    match o {
        Some(s) => Some(s@),
        None => None,
    }
}

/// Text of an optional map entry.
pub open spec fn map_text(m: Map<Seq<char>, String>, k: Seq<char>) -> Option<Seq<char>> {
    if m.contains_key(k) {
        Some(m[k]@)
    } else {
        None
    }
}

/// What `build_report` returns for binding `name` at the queried line.
pub open spec fn report_matches(
    r: &BindingInspectReport,
    name: Seq<char>,
    func: Seq<char>,
    file: Seq<char>,
    line: usize,
    st: &BorrowState,
    bl: &BlockLines,
) -> bool {
    &&& r.name@ == name
    &&& r.func@ == func
    &&& r.file@ == file
    &&& r.line == line
    &&& if !st.var_types.view().contains_key(name) {
        &&& r.ty@ == "unknown"@
        &&& r.kind == OwnershipKind::Copy
        &&& r.binding_status == BindingStatus::NotInScope
        &&& r.ownership_chain@.len() == 0
        &&& r.chain_hops@.len() == 0
        &&& r.current_owner@ == name
        &&& r.borrow_chain@.len() == 0
        &&& r.borrow_chain_hops@.len() == 0
        &&& r.heap_owner@ == name
        &&& r.role == InspectRole::NotInScope
        &&& r.borrowed_by@.len() == 0
        &&& r.borrows_from is None
        &&& r.move_origin is None
        &&& r.moved_to is None
        &&& r.moved_from is None
        &&& r.drop is None
    } else {
        let info = st.var_types.view()[name];
        let kind = info.kind;
        let moved = st.moved.view().contains_key(name);
        let borrower = spec_is_borrower(st, name);
        let owner = follow(st.move_to.view(), name, st.move_to.entries@.len() as nat);
        let bchain = if borrower {
            back_chain(st.ref_sources.view(), name, st.ref_sources.entries@.len() as nat)
        } else {
            Seq::<Seq<char>>::empty()
        };
        let ochain = if !borrower && kind == OwnershipKind::Move {
            back_chain(st.move_from.view(), owner, st.move_from.entries@.len() as nat)
        } else {
            Seq::<Seq<char>>::empty()
        };
        let heap = if borrower { spec_heap_owner(st, name) } else { name };
        &&& r.ty@ == info.label@
        &&& r.kind == kind
        &&& r.binding_status == (if moved { BindingStatus::Moved } else { BindingStatus::Valid })
        &&& texts(r.borrow_chain@) == bchain
        &&& r.borrow_chain_hops@.map_values(|h: BorrowChainHop| (h.from@, h.to@)) == spec_hops(bchain)
        &&& r.heap_owner@ == heap
        &&& texts(r.ownership_chain@) == ochain
        &&& r.chain_hops@.map_values(|h: ChainHop| (h.from@, h.to@)) == spec_hops(ochain)
        &&& r.current_owner@ == (if borrower { heap } else if kind == OwnershipKind::Move { owner } else { name })
        &&& r.role == (if moved {
            InspectRole::MovedAway
        } else if borrower {
            InspectRole::Borrower
        } else if kind == OwnershipKind::Copy {
            InspectRole::CopyBinding
        } else {
            InspectRole::Owner
        })
        &&& opt_text(r.moved_to) == (if borrower { None } else { map_text(st.move_to.view(), name) })
        &&& opt_text(r.moved_from) == (if borrower { None } else { map_text(st.move_from.view(), name) })
        &&& r.borrowed_by@.map_values(|b: BorrowerInfo| borrower_view(b)) == spec_active_borrowers(name, st, bl)
        &&& match r.borrows_from {
            Some(src) => st.ref_sources.view().contains_key(name)
                && src.name@ == st.ref_sources.view()[name]@
                && src.mutable == st.borrowed_mut.view().contains(src.name@),
            None => !st.ref_sources.view().contains_key(name),
        }
        &&& match r.move_origin {
            Some(o) => moved && o == st.moved.view()[name],
            None => !moved,
        }
        &&& match r.drop {
            Some(d) => kind == OwnershipKind::Move && !moved && d.at_scope_exit_line == bl.scope_exit_line
                && d.kind@ == "auto-drop"@,
            None => !(kind == OwnershipKind::Move && !moved),
        }
    }
}

fn copy_opt(o: Option<&String>) -> (r: Option<String>)
    ensures
        match o {
            Some(s) => r matches Some(t) && t@ == s@,
            None => r is None,
        },
{
    match o {
        Some(s) => Some(s.clone()),
        None => None,
    }
}

/// Ownership snapshot of binding `name` in `func` at `file:line`.
pub fn build_report(
    name: &str,
    func: &str,
    file: &str,
    line: usize,
    state: &BorrowState,
    block_lines: &BlockLines,
) -> (r: BindingInspectReport)
    requires
        state.wf(),
    ensures
        report_matches(&r, name@, func@, file@, line, state, block_lines),
{
    let info = match state.var_types.get(name) {
        Some(i) => i,
        None => {
            return BindingInspectReport {
                name: String::from_str(name),
                func: String::from_str(func),
                file: String::from_str(file),
                line,
                ty: String::from_str("unknown"),
                kind: OwnershipKind::Copy,
                binding_status: BindingStatus::NotInScope,
                ownership_chain: Vec::new(),
                chain_hops: Vec::new(),
                current_owner: String::from_str(name),
                borrow_chain: Vec::new(),
                borrow_chain_hops: Vec::new(),
                heap_owner: String::from_str(name),
                role: InspectRole::NotInScope,
                borrowed_by: Vec::new(),
                borrows_from: None,
                move_origin: None,
                moved_to: None,
                moved_from: None,
                drop: None,
            };
        },
    };
    let kind = info.kind;
    let moved = state.moved.contains_key(name);
    let binding_status = if moved { BindingStatus::Moved } else { BindingStatus::Valid };
    let is_borrower = state.ref_sources.contains_key(name) || info.is_ref;
    let borrow_chain = if is_borrower { state.borrow_chain_for(name) } else { Vec::new() };
    assert(is_borrower || texts(borrow_chain@) =~= Seq::<Seq<char>>::empty());
    let borrow_chain_hops = borrow_chain_hops_from(borrow_chain.as_slice());
    let heap_owner = if is_borrower { state.heap_owner_for(name) } else { String::from_str(name) };
    let is_move = kind == OwnershipKind::Move;
    let ownership_chain = if !is_borrower && is_move { state.ownership_chain_for(name) } else { Vec::new() };
    assert((!is_borrower && is_move) || texts(ownership_chain@) =~= Seq::<Seq<char>>::empty());
    let chain_hops = chain_hops_from(ownership_chain.as_slice());
    let current_owner = if is_borrower {
        heap_owner.clone()
    } else if is_move {
        state.current_owner_of(name)
    } else {
        String::from_str(name)
    };
    let role = if moved {
        InspectRole::MovedAway
    } else if is_borrower {
        InspectRole::Borrower
    } else if kind == OwnershipKind::Copy {
        InspectRole::CopyBinding
    } else {
        InspectRole::Owner
    };
    let moved_to = if is_borrower { None } else { copy_opt(state.move_to.get(name)) };
    let moved_from = if is_borrower { None } else { copy_opt(state.move_from.get(name)) };
    let borrowed_by = active_borrowers(name, state, block_lines);
    let borrows_from = match state.ref_sources.get(name) {
        Some(src) => Some(BorrowSource { name: src.clone(), mutable: state.borrowed_mut.contains(src.as_str()) }),
        None => None,
    };
    let move_origin = match state.moved.get(name) {
        Some(o) => Some(o.duplicate()),
        None => None,
    };
    let drop = if is_move && !moved {
        Some(DropInfo { at_scope_exit_line: block_lines.scope_exit_line, kind: "auto-drop" })
    } else {
        None
    };
    BindingInspectReport {
        name: String::from_str(name),
        func: String::from_str(func),
        file: String::from_str(file),
        line,
        ty: info.label.clone(),
        kind,
        binding_status,
        ownership_chain,
        chain_hops,
        current_owner,
        borrow_chain,
        borrow_chain_hops,
        heap_owner,
        role,
        borrowed_by,
        borrows_from,
        move_origin,
        moved_to,
        moved_from,
        drop,
    }
}

/// File name shown in a report header: the final path component when there is one.
pub open spec fn file_display(file: Seq<char>) -> Seq<char> {
    match path_file_name(file) {
        Some(n) => n,
        None => file,
    }
}

/// Decimal text of a line number.
pub open spec fn dec(n: usize) -> Seq<char> {
    decimal_string(n as nat)
}

/// `&mut` or `&`.
pub open spec fn mut_text(mutable: bool) -> Seq<char> {
    if mutable {
        "&mut"@
    } else {
        "&"@
    }
}

/// Header and chain/owner lines of a report.
pub open spec fn report_head_lines(r: &BindingInspectReport) -> Seq<Seq<char>> {
    let header = r.name@ + " ("@ + r.ty@ + ") @ "@ + file_display(r.file@) + ":"@ + dec(r.line) + " in "@
        + r.func@ + ":"@;
    if r.role == InspectRole::Borrower {
        let base = seq![
            header,
            "  you inspect: `"@ + r.name@ + "` (borrower — does not own heap value)"@,
            "  heap owner: `"@ + r.heap_owner@ + "` (owns the Move value on the heap)"@,
        ];
        if r.borrow_chain@.len() > 1 {
            base + seq!["  borrow chain:"@, "    "@ + spec_borrow_chain_diagram(texts(r.borrow_chain@))]
        } else {
            match r.borrows_from {
                Some(src) => base.push("  borrow chain: `"@ + src.name@ + "` ◄──borrow── `"@ + r.name@ + "`"@),
                None => base,
            }
        }
    } else {
        let chain_lines = if r.kind == OwnershipKind::Move && r.ownership_chain@.len() > 1 {
            seq!["  ownership chain:"@, "    "@ + spec_chain_diagram(texts(r.ownership_chain@))]
        } else if r.kind == OwnershipKind::Move {
            seq!["  ownership chain: "@ + r.name@]
        } else {
            Seq::<Seq<char>>::empty()
        };
        let owner_lines = match r.role {
            InspectRole::Owner => seq![
                "  current owner: `"@ + r.current_owner@ + "` (this binding owns the value)"@,
            ],
            InspectRole::MovedAway => seq![
                "  current owner: `"@ + r.current_owner@ + "` (`"@ + r.name@
                    + "` no longer owns — follow chain above)"@,
            ],
            InspectRole::CopyBinding => seq!["  current owner: `"@ + r.name@ + "` (Copy — independent value)"@],
            _ => Seq::<Seq<char>>::empty(),
        };
        seq![header] + chain_lines + seq!["  you inspect: `"@ + r.name@ + "`"@] + owner_lines
    }
}

/// `kind:` and `binding:` lines of a report.
pub open spec fn report_kind_lines(r: &BindingInspectReport) -> Seq<Seq<char>> {
    let kind_line = if r.role == InspectRole::Borrower {
        "  kind: "@ + spec_kind_label(r.kind) + " (reference)"@
    } else {
        "  kind: "@ + spec_kind_label(r.kind)
    };
    let binding = match r.binding_status {
        BindingStatus::Valid => if r.role == InspectRole::Borrower {
            "valid (borrow)"@
        } else if r.kind == OwnershipKind::Move {
            "owned (valid)"@
        } else {
            "valid (Copy)"@
        },
        BindingStatus::Moved => "moved (invalid)"@,
        BindingStatus::NotInScope => "not in scope"@,
    };
    seq![kind_line, "  binding: "@ + binding]
}

/// Move lines of a report.
pub open spec fn report_move_lines(r: &BindingInspectReport) -> Seq<Seq<char>> {
    let status = if r.binding_status == BindingStatus::Moved {
        match r.moved_to {
            Some(dest) => "  moved to: `"@ + dest@ + "`"@,
            None => match r.move_origin {
                Some(o) => match o.callee {
                    Some(c) => "  moved into: `"@ + c@ + "`"@,
                    None => "  moved: yes"@,
                },
                None => "  moved: yes"@,
            },
        }
    } else {
        "  moved: no"@
    };
    let from = match r.moved_from {
        Some(src) => seq!["  moved from: `"@ + src@ + "`"@],
        None => Seq::<Seq<char>>::empty(),
    };
    let borrows = match r.borrows_from {
        Some(src) => seq!["  borrows from: `"@ + src.name@ + "` ("@ + mut_text(src.mutable) + ")"@],
        None => Seq::<Seq<char>>::empty(),
    };
    seq![status] + from + borrows
}

/// One `borrowed by:` line.
pub open spec fn borrowed_by_line(b: BorrowerInfo) -> Seq<char> {
    "  borrowed by: `"@ + b.name@ + "` ("@ + mut_text(b.mutable) + b.ty@ + "), expires after line "@
        + dec(b.expires_after_line)
}

/// Borrower and drop lines of a report.
pub open spec fn report_tail_lines(r: &BindingInspectReport) -> Seq<Seq<char>> {
    let borrowed = if r.borrowed_by@.len() == 0 {
        seq!["  borrowed by: (none)"@]
    } else {
        r.borrowed_by@.map_values(|b: BorrowerInfo| borrowed_by_line(b))
    };
    let drop = match r.drop {
        Some(d) => seq![
            "  drop: "@ + d.kind@ + " at scope exit (line "@ + dec(d.at_scope_exit_line) + ")"@,
        ],
        None => Seq::<Seq<char>>::empty(),
    };
    borrowed + drop
}

/// All lines of a report, in order.
pub open spec fn spec_report_lines(r: &BindingInspectReport) -> Seq<Seq<char>> {
    report_head_lines(r) + report_kind_lines(r) + report_move_lines(r) + report_tail_lines(r)
}

fn dec_exec(n: usize) -> (r: String)
    ensures
        r@ == dec(n),
{
    decimal_of(n as u64)
}

fn push_line(lines: &mut Vec<String>, s: String)
    ensures
        texts(final(lines)@) == texts(old(lines)@).push(s@),
{
    let ghost before = lines@;
    lines.push(s);
    assert(texts(lines@) =~= texts(before).push(s@));
}

impl BindingInspectReport {
    fn push_head_lines(&self, lines: &mut Vec<String>)
        ensures
            texts(final(lines)@) == texts(old(lines)@) + report_head_lines(self),
    {
        let ghost head = texts(lines@);
        let fname = file_name_of(self.file.as_str());
        let file_display: &str = match &fname {
            Some(n) => n.as_str(),
            None => self.file.as_str(),
        };
        push_line(lines, String::from_str(self.name.as_str()).concat(" (").concat(self.ty.as_str()).concat(
            ") @ ",
        ).concat(file_display).concat(":").concat(dec_exec(self.line).as_str()).concat(" in ").concat(
            self.func.as_str(),
        ).concat(":"));
        if self.role == InspectRole::Borrower {
            push_line(lines, String::from_str("  you inspect: `").concat(self.name.as_str()).concat(
                "` (borrower — does not own heap value)",
            ));
            push_line(lines, String::from_str("  heap owner: `").concat(self.heap_owner.as_str()).concat(
                "` (owns the Move value on the heap)",
            ));
            if self.borrow_chain.len() > 1 {
                push_line(lines, String::from_str("  borrow chain:"));
                let d = format_borrow_chain_diagram(self.borrow_chain.as_slice());
                push_line(lines, String::from_str("    ").concat(d.as_str()));
            } else if let Some(src) = &self.borrows_from {
                push_line(lines, String::from_str("  borrow chain: `").concat(src.name.as_str()).concat(
                    "` ◄──borrow── `",
                ).concat(self.name.as_str()).concat("`"));
            }
        } else {
            let is_move = self.kind == OwnershipKind::Move;
            if is_move && self.ownership_chain.len() > 1 {
                push_line(lines, String::from_str("  ownership chain:"));
                let d = format_chain_diagram(self.ownership_chain.as_slice());
                push_line(lines, String::from_str("    ").concat(d.as_str()));
            } else if is_move {
                push_line(lines, String::from_str("  ownership chain: ").concat(self.name.as_str()));
            }
            push_line(lines, String::from_str("  you inspect: `").concat(self.name.as_str()).concat("`"));
            match self.role {
                InspectRole::Owner => {
                    push_line(lines, String::from_str("  current owner: `").concat(
                        self.current_owner.as_str(),
                    ).concat("` (this binding owns the value)"));
                },
                InspectRole::MovedAway => {
                    push_line(lines, String::from_str("  current owner: `").concat(
                        self.current_owner.as_str(),
                    ).concat("` (`").concat(self.name.as_str()).concat(
                        "` no longer owns — follow chain above)",
                    ));
                },
                InspectRole::CopyBinding => {
                    push_line(lines, String::from_str("  current owner: `").concat(self.name.as_str()).concat(
                        "` (Copy — independent value)",
                    ));
                },
                _ => {},
            }
        }
        assert(texts(lines@) =~= head + report_head_lines(self));
    }

    fn push_kind_lines(&self, lines: &mut Vec<String>)
        ensures
            texts(final(lines)@) == texts(old(lines)@) + report_kind_lines(self),
    {
        let ghost head = texts(lines@);
        let kl = kind_label(self.kind);
        if self.role == InspectRole::Borrower {
            push_line(lines, String::from_str("  kind: ").concat(kl).concat(" (reference)"));
        } else {
            push_line(lines, String::from_str("  kind: ").concat(kl));
        }
        let binding: &str = match self.binding_status {
            BindingStatus::Valid => if self.role == InspectRole::Borrower {
                "valid (borrow)"
            } else if self.kind == OwnershipKind::Move {
                "owned (valid)"
            } else {
                "valid (Copy)"
            },
            BindingStatus::Moved => "moved (invalid)",
            BindingStatus::NotInScope => "not in scope",
        };
        push_line(lines, String::from_str("  binding: ").concat(binding));
        assert(texts(lines@) =~= head + report_kind_lines(self));
    }

    fn push_move_lines(&self, lines: &mut Vec<String>)
        ensures
            texts(final(lines)@) == texts(old(lines)@) + report_move_lines(self),
    {
        let ghost head = texts(lines@);
        if self.binding_status == BindingStatus::Moved {
            if let Some(dest) = &self.moved_to {
                push_line(lines, String::from_str("  moved to: `").concat(dest.as_str()).concat("`"));
            } else if let Some(origin) = &self.move_origin {
                if let Some(callee) = &origin.callee {
                    push_line(lines, String::from_str("  moved into: `").concat(callee.as_str()).concat("`"));
                } else {
                    push_line(lines, String::from_str("  moved: yes"));
                }
            } else {
                push_line(lines, String::from_str("  moved: yes"));
            }
        } else {
            push_line(lines, String::from_str("  moved: no"));
        }
        if let Some(src) = &self.moved_from {
            push_line(lines, String::from_str("  moved from: `").concat(src.as_str()).concat("`"));
        }
        if let Some(src) = &self.borrows_from {
            let m: &str = if src.mutable { "&mut" } else { "&" };
            push_line(lines, String::from_str("  borrows from: `").concat(src.name.as_str()).concat("` (").concat(
                m,
            ).concat(")"));
        }
        assert(texts(lines@) =~= head + report_move_lines(self));
    }

    fn push_tail_lines(&self, lines: &mut Vec<String>)
        ensures
            texts(final(lines)@) == texts(old(lines)@) + report_tail_lines(self),
    {
        let ghost head = texts(lines@);
        if self.borrowed_by.len() == 0 {
            push_line(lines, String::from_str("  borrowed by: (none)"));
        } else {
            let mut i: usize = 0;
            while i < self.borrowed_by.len()
                invariant
                    i <= self.borrowed_by@.len(),
                    texts(lines@) == head + self.borrowed_by@.take(i as int).map_values(
                        |b: BorrowerInfo| borrowed_by_line(b),
                    ),
                decreases self.borrowed_by@.len() - i,
            {
                let b = &self.borrowed_by[i];
                let m: &str = if b.mutable { "&mut" } else { "&" };
                let ghost before = texts(lines@);
                push_line(lines, String::from_str("  borrowed by: `").concat(b.name.as_str()).concat("` (").concat(
                    m,
                ).concat(b.ty.as_str()).concat("), expires after line ").concat(
                    dec_exec(b.expires_after_line).as_str(),
                ));
                assert(self.borrowed_by@.take(i + 1).map_values(|b: BorrowerInfo| borrowed_by_line(b))
                    =~= self.borrowed_by@.take(i as int).map_values(|b: BorrowerInfo| borrowed_by_line(b)).push(
                    borrowed_by_line(self.borrowed_by@[i as int]),
                ));
                i = i + 1;
            }
            assert(self.borrowed_by@.take(self.borrowed_by@.len() as int) =~= self.borrowed_by@);
        }
        if let Some(d) = &self.drop {
            push_line(lines, String::from_str("  drop: ").concat(d.kind).concat(" at scope exit (line ").concat(
                dec_exec(d.at_scope_exit_line).as_str(),
            ).concat(")"));
        }
        assert(texts(lines@) =~= head + report_tail_lines(self));
    }

    /// Human-readable report lines.
    pub fn format_lines(&self) -> (r: Vec<String>)
        ensures
            texts(r@) == spec_report_lines(self),
    {
        let mut lines: Vec<String> = Vec::new();
        assert(texts(lines@) =~= Seq::<Seq<char>>::empty());
        self.push_head_lines(&mut lines);
        self.push_kind_lines(&mut lines);
        self.push_move_lines(&mut lines);
        self.push_tail_lines(&mut lines);
        assert(texts(lines@) =~= spec_report_lines(self));
        lines
    }
}


/// One binding in the `--ownership-verbose` summary.
#[derive(Debug, PartialEq)]
pub struct VerboseEntry {
    pub func: String,
    pub name: String,
    pub ty: String,
    pub kind: OwnershipKind,
    pub status: BindingStatus,
}

/// Bindings tracked at function exits.
#[derive(Debug, PartialEq)]
pub struct OwnershipVerbosePlan {
    pub entries: Vec<VerboseEntry>,
}

/// Entry `a` comes no later than `b`: by function, then binding name.
pub open spec fn entry_le(a: VerboseEntry, b: VerboseEntry) -> bool {
    lex_lt(a.func@, b.func@) || (a.func@ == b.func@ && !lex_lt(b.name@, a.name@))
}

/// `x` inserted into `s` after the last entry that is not after it.
pub open spec fn insert_entry(s: Seq<VerboseEntry>, x: VerboseEntry) -> Seq<VerboseEntry>
    decreases s.len(),
{
    if s.len() == 0 {
        seq![x]
    } else if entry_le(s.last(), x) {
        s.push(x)
    } else {
        insert_entry(s.drop_last(), x).push(s.last())
    }
}

/// Entries grouped by function and ordered by name (stable).
pub open spec fn sort_entries(s: Seq<VerboseEntry>) -> Seq<VerboseEntry>
    decreases s.len(),
{
    if s.len() == 0 {
        seq![]
    } else {
        insert_entry(sort_entries(s.drop_last()), s.last())
    }
}

/// The summary line of one entry.
pub open spec fn entry_line(e: VerboseEntry) -> Seq<char> {
    "  ownership: "@ + e.func@ + "::"@ + e.name@ + " → "@ + spec_kind_label(e.kind) + " ("@
        + spec_status_label(e.status) + ")"@
}

/// Lines of the `--ownership-verbose` summary.
pub open spec fn spec_summary_lines(entries: Seq<VerboseEntry>) -> Seq<Seq<char>> {
    if entries.len() == 0 {
        seq!["ownership: no bindings tracked"@]
    } else {
        seq!["ownership: "@ + decimal_string(entries.len()) + " binding(s) at function exit"@]
            + sort_entries(entries).map_values(|e: VerboseEntry| entry_line(e))
    }
}

proof fn lemma_insert_entry_split(s: Seq<VerboseEntry>, x: VerboseEntry, j: int)
    requires
        0 <= j <= s.len(),
        forall|k: int| j <= k < s.len() ==> !entry_le(#[trigger] s[k], x),
    ensures
        insert_entry(s, x) == insert_entry(s.take(j), x) + s.skip(j),
    decreases s.len() - j,
{
    if j < s.len() {
        assert(!entry_le(s.last(), x));
        lemma_insert_entry_split(s.drop_last(), x, j);
        assert(s.drop_last().take(j) =~= s.take(j));
        assert(insert_entry(s.take(j), x) + s.skip(j) =~= (insert_entry(s.take(j), x) + s.drop_last().skip(j)).push(s.last()));
    } else {
        assert(s.take(j) =~= s);
        assert(s.skip(j) =~= Seq::<VerboseEntry>::empty());
    }
}

fn entry_le_exec(a: &VerboseEntry, b: &VerboseEntry) -> (r: bool)
    ensures
        r == entry_le(*a, *b),
{
    let af = crate::text::chars_of(a.func.as_str());
    let bf = crate::text::chars_of(b.func.as_str());
    if lex_lt_exec(af.as_slice(), bf.as_slice()) {
        return true;
    }
    if !crate::text::chars_eq(af.as_slice(), bf.as_slice()) {
        return false;
    }
    let an = crate::text::chars_of(a.name.as_str());
    let bn = crate::text::chars_of(b.name.as_str());
    !lex_lt_exec(bn.as_slice(), an.as_slice())
}

impl OwnershipVerbosePlan {
    /// The summary: a count line, then one line per binding, grouped by
    /// function and ordered by name (see [`spec_summary_lines`]).
    pub fn report_lines(&self) -> (r: Vec<String>)
        requires
            self.entries@.len() <= u64::MAX,
        ensures
            texts(r@) == spec_summary_lines(self.entries@),
    {
        if self.entries.len() == 0 {
            let mut v: Vec<String> = Vec::new();
            v.push(String::from_str("ownership: no bindings tracked"));
            assert(texts(v@) =~= spec_summary_lines(self.entries@));
            return v;
        }
        let ghost es = self.entries@;
        let mut sorted: Vec<&VerboseEntry> = Vec::new();
        let mut i: usize = 0;
        while i < self.entries.len()
            invariant
                es == self.entries@,
                i <= es.len(),
                sorted@.map_values(|e: &VerboseEntry| *e) == sort_entries(es.take(i as int)),
            decreases es.len() - i,
        {
            let x = &self.entries[i];
            let ghost v = sorted@.map_values(|e: &VerboseEntry| *e);
            let mut j: usize = sorted.len();
            while j > 0 && !entry_le_exec(sorted[j - 1], x)
                invariant
                    v == sorted@.map_values(|e: &VerboseEntry| *e),
                    j <= sorted@.len(),
                    forall|k: int| j <= k < v.len() ==> !entry_le(#[trigger] v[k], *x),
                decreases j,
            {
                j = j - 1;
            }
            proof {
                lemma_insert_entry_split(v, *x, j as int);
                if j > 0 {
                    assert(entry_le(v.take(j as int).last(), *x));
                    assert(insert_entry(v.take(j as int), *x) =~= v.take(j as int).push(*x));
                } else {
                    assert(insert_entry(v.take(0), *x) =~= seq![*x]);
                }
                assert(es.take(i + 1).drop_last() =~= es.take(i as int));
                assert(es.take(i + 1).last() == *x);
            }
            sorted.insert(j, x);
            proof {
                assert(sorted@.map_values(|e: &VerboseEntry| *e) =~= v.take(j as int).push(*x) + v.skip(j as int));
            }
            i = i + 1;
        }
        proof {
            assert(es.take(es.len() as int) =~= es);
        }
        let mut lines: Vec<String> = Vec::new();
        lines.push(String::from_str("ownership: ").concat(decimal_of(self.entries.len() as u64).as_str()).concat(
            " binding(s) at function exit",
        ));
        let ghost srt = sort_entries(es);
        let mut k: usize = 0;
        while k < sorted.len()
            invariant
                sorted@.map_values(|e: &VerboseEntry| *e) == srt,
                k <= srt.len(),
                lines@.len() == k + 1,
                srt == sort_entries(es),
                es == self.entries@,
                es.len() > 0,
                texts(lines@)[0] == "ownership: "@ + decimal_string(es.len()) + " binding(s) at function exit"@,
                texts(lines@) == seq![texts(lines@)[0]] + srt.take(k as int).map_values(|e: VerboseEntry| entry_line(e)),
            decreases srt.len() - k,
        {
            let e = sorted[k];
            assert(*e == srt[k as int]);
            let ghost before = texts(lines@);
            let line = String::from_str("  ownership: ").concat(e.func.as_str()).concat("::").concat(e.name.as_str()).concat(
                " → ",
            ).concat(kind_label(e.kind)).concat(" (").concat(status_label(e.status)).concat(")");
            lines.push(line);
            proof {
                assert(texts(lines@) =~= before.push(entry_line(*e)));
                assert(srt.take(k + 1).map_values(|e: VerboseEntry| entry_line(e)) =~= srt.take(k as int).map_values(|e: VerboseEntry| entry_line(e)).push(entry_line(srt[k as int])));
            }
            k = k + 1;
        }
        proof {
            assert(srt.take(srt.len() as int) =~= srt);
            assert(texts(lines@) =~= spec_summary_lines(es));
        }
        lines
    }
}

/// Start line and file of a statement's span (0 and empty without one).
pub open spec fn stmt_line(st: &Statement) -> usize {
    match spec_stmt_span(st) {
        Some(sp) => sp.start.line,
        None => 0,
    }
}

pub open spec fn stmt_file(st: &Statement) -> Seq<char> {
    match spec_stmt_span(st) {
        Some(sp) => sp.file@,
        None => Seq::empty(),
    }
}

/// Do `bl` hold the statement lines and scope-exit line of `block` (the end
/// line of its last statement, 1 for an empty block)?
pub open spec fn lines_of_block(bl: BlockLines, block: &Block) -> bool {
    let st = block.statements@;
    &&& bl.lines@ == st.map_values(|s: Statement| stmt_line(&s))
    &&& bl.scope_exit_line == if st.len() == 0 {
        1
    } else {
        match spec_stmt_span(&st.last()) {
            Some(sp) => sp.end.line,
            None => 0,
        }
    }
}

pub fn block_line_map(block: &Block) -> (r: BlockLines)
    ensures
        lines_of_block(r, block),
{
    let mut lines: Vec<usize> = Vec::new();
    let mut i: usize = 0;
    while i < block.statements.len()
        invariant
            i <= block.statements@.len(),
            lines@ == block.statements@.take(i as int).map_values(|s: Statement| stmt_line(&s)),
        decreases block.statements@.len() - i,
    {
        let sp = stmt_span(&block.statements[i]);
        lines.push(sp.start.line);
        proof {
            assert(block.statements@.take(i + 1).map_values(|s: Statement| stmt_line(&s)) =~=
                block.statements@.take(i as int).map_values(|s: Statement| stmt_line(&s)).push(stmt_line(&block.statements@[i as int])));
        }
        i = i + 1;
    }
    proof {
        assert(block.statements@.take(block.statements@.len() as int) =~= block.statements@);
    }
    let n = block.statements.len();
    let scope_exit_line = if n == 0 {
        1
    } else {
        stmt_span(&block.statements[n - 1]).end.line
    };
    BlockLines { lines, scope_exit_line }
}

/// Collects inspection data while the borrow checker walks a program: the
/// report for a point query, or the bindings alive at each block exit.
pub struct InspectCollector {
    pub query: Option<InspectQuery>,
    pub verbose: bool,
    pub query_result: Option<BindingInspectReport>,
    pub verbose_entries: Vec<VerboseEntry>,
    pub current_func: String,
}

/// One verbose entry per declared binding of `st`, in declaration order.
pub open spec fn exit_entries_ok(func: Seq<char>, st: &BorrowState, added: Seq<VerboseEntry>) -> bool {
    let es = st.var_types.entries@;
    &&& added.len() == es.len()
    &&& forall|i: int| 0 <= i < es.len() ==> {
        let e = #[trigger] added[i];
        &&& e.func@ == func
        &&& e.name@ == es[i].0@
        &&& e.ty@ == es[i].1.label@
        &&& e.kind == es[i].1.kind
        &&& e.status == (if st.moved@.contains_key(es[i].0@) { BindingStatus::Moved } else { BindingStatus::Valid })
    }
}

impl InspectCollector {
    /// A collector answering `query`.
    pub fn for_query(query: InspectQuery) -> (r: Self)
        ensures
            r.query == Some(query),
            !r.verbose,
            r.query_result is None,
            r.verbose_entries@.len() == 0,
            r.current_func@ == Seq::<char>::empty(),
    {
        InspectCollector { query: Some(query), verbose: false, query_result: None, verbose_entries: Vec::new(), current_func: String::new() }
    }

    /// A collector for the `--ownership-verbose` summary.
    pub fn verbose() -> (r: Self)
        ensures
            r.query is None,
            r.verbose,
            r.query_result is None,
            r.verbose_entries@.len() == 0,
            r.current_func@ == Seq::<char>::empty(),
    {
        InspectCollector { query: None, verbose: true, query_result: None, verbose_entries: Vec::new(), current_func: String::new() }
    }

    /// Sets the function being checked.
    pub fn set_func(&mut self, func: &str)
        ensures
            final(self).current_func@ == func@,
            final(self).query == old(self).query,
            final(self).verbose == old(self).verbose,
            final(self).query_result == old(self).query_result,
            final(self).verbose_entries == old(self).verbose_entries,
    {
        self.current_func = String::from_str(func);
    }

    /// The verbose summary collected.
    pub fn into_verbose_plan(self) -> (r: OwnershipVerbosePlan)
        ensures
            r.entries == self.verbose_entries,
    {
        OwnershipVerbosePlan { entries: self.verbose_entries }
    }

    /// After a statement: when it is at the queried line of the queried file,
    /// takes the report for the queried binding.
    pub fn on_after_stmt(&mut self, stmt: &Statement, block: &Block, state: &BorrowState)
        requires
            state.wf(),
        ensures
            final(self).query == old(self).query,
            final(self).verbose == old(self).verbose,
            final(self).verbose_entries == old(self).verbose_entries,
            final(self).current_func == old(self).current_func,
            match old(self).query {
                Some(q) => if q.line == stmt_line(stmt) && crate::inspect::spec_file_names_match(
                    stmt_file(stmt),
                    q.file@,
                    path_file_name(stmt_file(stmt)),
                    path_file_name(q.file@),
                ) {
                    final(self).query_result matches Some(rep) && exists|bl: BlockLines| lines_of_block(bl, block)
                        && report_matches(&rep, q.name@, old(self).current_func@, stmt_file(stmt), stmt_line(stmt), state, &bl)
                } else {
                    final(self).query_result == old(self).query_result
                },
                None => final(self).query_result == old(self).query_result,
            },
    {
        let block_lines = block_line_map(block);
        let sp = stmt_span(stmt);
        let line = sp.start.line;
        let report = match &self.query {
            Some(q) => {
                if q.line == line && file_matches(sp.file.as_str(), q.file.as_str()) {
                    Some(build_report(q.name.as_str(), self.current_func.as_str(), sp.file.as_str(), line, state, &block_lines))
                } else {
                    None
                }
            },
            None => None,
        };
        if let Some(rep) = report {
            self.query_result = Some(rep);
        }
    }

    /// At a block's exit, in verbose mode: records every declared binding with
    /// its type, ownership kind and whether it was moved.
    pub fn on_block_exit(&mut self, state: &BorrowState)
        requires
            state.wf(),
        ensures
            final(self).query == old(self).query,
            final(self).verbose == old(self).verbose,
            final(self).query_result == old(self).query_result,
            final(self).current_func == old(self).current_func,
            final(self).verbose_entries@.len() >= old(self).verbose_entries@.len(),
            final(self).verbose_entries@.take(old(self).verbose_entries@.len() as int) == old(self).verbose_entries@,
            old(self).verbose ==> exit_entries_ok(
                old(self).current_func@,
                state,
                final(self).verbose_entries@.skip(old(self).verbose_entries@.len() as int),
            ),
            !old(self).verbose ==> final(self).verbose_entries == old(self).verbose_entries,
    {
        if !self.verbose {
            return;
        }
        let ghost n0 = self.verbose_entries@.len();
        let ghost old_entries = self.verbose_entries@;
        let es = &state.var_types.entries;
        let mut i: usize = 0;
        while i < es.len()
            invariant
                self.query == old(self).query,
                self.verbose == old(self).verbose,
                self.query_result == old(self).query_result,
                self.current_func == old(self).current_func,
                es == &state.var_types.entries,
                state.wf(),
                n0 == old_entries.len(),
                old_entries == old(self).verbose_entries@,
                i <= es@.len(),
                self.verbose_entries@.len() == n0 + i,
                self.verbose_entries@.take(n0 as int) == old_entries,
                forall|k: int| 0 <= k < i ==> {
                    let e = #[trigger] self.verbose_entries@[n0 + k];
                    &&& e.func@ == self.current_func@
                    &&& e.name@ == es@[k].0@
                    &&& e.ty@ == es@[k].1.label@
                    &&& e.kind == es@[k].1.kind
                    &&& e.status == (if state.moved@.contains_key(es@[k].0@) { BindingStatus::Moved } else { BindingStatus::Valid })
                },
            decreases es@.len() - i,
        {
            let (name, info) = (&es[i].0, &es[i].1);
            let status = if state.moved.contains_key(name.as_str()) { BindingStatus::Moved } else { BindingStatus::Valid };
            let e = VerboseEntry {
                func: self.current_func.clone(),
                name: name.clone(),
                ty: info.label.clone(),
                kind: info.kind,
                status,
            };
            let ghost before = self.verbose_entries@;
            self.verbose_entries.push(e);
            proof {
                assert(self.verbose_entries@.take(n0 as int) =~= before.take(n0 as int));
                assert forall|k: int| 0 <= k < i + 1 implies {
                    let e = #[trigger] self.verbose_entries@[n0 + k];
                    &&& e.func@ == self.current_func@
                    &&& e.name@ == es@[k].0@
                    &&& e.ty@ == es@[k].1.label@
                    &&& e.kind == es@[k].1.kind
                    &&& e.status == (if state.moved@.contains_key(es@[k].0@) { BindingStatus::Moved } else { BindingStatus::Valid })
                } by {
                    if k < i {
                        assert(self.verbose_entries@[n0 + k] == before[n0 + k]);
                    }
                }
            }
            i = i + 1;
        }
        proof {
            let added = self.verbose_entries@.skip(n0 as int);
            assert forall|k: int| 0 <= k < es@.len() implies #[trigger] added[k] == self.verbose_entries@[n0 + k] by {}
        }
    }
}

} // verus!
