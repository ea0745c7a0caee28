//! The call stack of the running program, and the symbols behind instruction pointers.
use crate::types::InstrStackDetails;
use vstd::prelude::*;

verus! {

/// `backtrace::trace`: the frames of the current call stack, innermost first, each with the
/// address of its function and its instruction pointer. Nothing is claimed of them: they depend
/// on who calls, and on what the platform can tell.
#[verifier::external_body]
pub(crate) fn call_stack() -> (frames: Vec<(u64, u64)>) {
    let mut frames: Vec<(u64, u64)> = Vec::new();
    backtrace::trace(
        |frame|
            {
                frames.push((frame.symbol_address() as u64, frame.ip() as u64));
                true
            },
    );
    frames
}

/// `backtrace::resolve`: the symbols at the instruction pointer `ip`, in the order in which they
/// are found. There may be none, and there are several where functions were inlined. Nothing is
/// claimed of them: they depend on the program and on its debug information.
#[verifier::external_body]
pub(crate) fn symbols_at(ip: u64) -> (symbols: Vec<InstrStackDetails>) {
    let mut symbols: Vec<InstrStackDetails> = Vec::new();
    backtrace::resolve(
        std::ptr::with_exposed_provenance_mut(ip as usize),
        |symbol|
            symbols.push(
                InstrStackDetails {
                    name: symbol.name().map(|name| format!("{:#}", name)),
                    filename: symbol.filename().map(|path| path.to_path_buf()),
                    lineno: symbol.lineno(),
                    colno: symbol.colno(),
                },
            ),
    );
    symbols
}

/// What is reported of an instruction pointer with these `symbols`: the last of them, or nothing
/// where there is none.
pub open spec fn reported(symbols: Seq<InstrStackDetails>) -> InstrStackDetails {
    if symbols.len() > 0 {
        symbols.last()
    } else {
        InstrStackDetails { name: None, filename: None, lineno: None, colno: None }
    }
}

/// The details to report of an instruction pointer with these `symbols`.
pub fn last_symbol(symbols: Vec<InstrStackDetails>) -> (details: InstrStackDetails)
    ensures
        details == reported(symbols@),
{
    let mut symbols = symbols;
    match symbols.pop() {
        Some(details) => details,
        None => InstrStackDetails { name: None, filename: None, lineno: None, colno: None },
    }
}

/// Some lookup of the instruction pointer `ip` finds `symbols`.
pub closed spec fn found_at(ip: u64, symbols: Seq<InstrStackDetails>) -> bool {
    exists|found: Vec<InstrStackDetails>|
        found@ == symbols && #[trigger] call_ensures(symbols_at, (ip,), found)
}

/// Some look at the call stack sees `frames`.
pub closed spec fn seen_on_stack(frames: Seq<(u64, u64)>) -> bool {
    exists|seen: Vec<(u64, u64)>| seen@ == frames && #[trigger] call_ensures(call_stack, (), seen)
}

/// What is seen on the call stack is what looking at it gives.
pub(crate) proof fn law_seen_by_looking(seen: Vec<(u64, u64)>, frames: Seq<(u64, u64)>)
    ensures
        call_ensures(call_stack, (), seen) ==> seen_on_stack(seen@),
        seen_on_stack(frames) ==> exists|given: Vec<(u64, u64)>|
            given@ == frames && #[trigger] call_ensures(call_stack, (), given),
{
}

/// What is found at an instruction pointer is what the lookup of that instruction pointer, and of
/// no other, gives.
pub(crate) proof fn law_found_by_lookup(
    ip: u64,
    found: Vec<InstrStackDetails>,
    symbols: Seq<InstrStackDetails>,
)
    ensures
        call_ensures(symbols_at, (ip,), found) ==> found_at(ip, found@),
        found_at(ip, symbols) ==> exists|given: Vec<InstrStackDetails>|
            given@ == symbols && #[trigger] call_ensures(symbols_at, (ip,), given),
{
}

/// Resolve an instruction pointer to a symbol: looks up the symbols at `ip` and picks from them as
/// [`last_symbol`] does. What is found depends on the program and on its debug information.
pub(crate) fn resolve(ip: u64) -> (details: InstrStackDetails)
    ensures
        exists|symbols: Seq<InstrStackDetails>| #[trigger]
            found_at(ip, symbols) && details == reported(symbols),
{
    let symbols = symbols_at(ip);
    assert(found_at(ip, symbols@));
    last_symbol(symbols)
}

} // verus!
