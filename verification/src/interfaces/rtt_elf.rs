//! The address of the RTT control block, read out of a firmware ELF: the
//! RTT implementation exports the block as the symbol `_SEGGER_RTT`.
use vstd::prelude::*;
use object::{Object, ObjectSymbol};
use crate::text::{push_str, to_owned_string};

verus! {

/// The name of the control block's symbol, `_SEGGER_RTT`.
pub open spec fn control_block_symbol() -> Seq<char> {
    seq!['_', 'S', 'E', 'G', 'G', 'E', 'R', '_', 'R', 'T', 'T']
}

/// The symbols of an object file, in the order the file lists them, as
/// their names (none where a name cannot be read) and addresses; or the
/// parser's message when the bytes are not an object file it can read.
pub uninterp spec fn object_symbols(data: Seq<u8>) -> Result<Seq<(Option<Seq<char>>, u64)>, Seq<char>>;

/// Parses `data` as an object file and lists its symbols
/// (`object::File::parse`, then `Object::symbols` with `ObjectSymbol::name`
/// and `ObjectSymbol::address`). The result is named by `object_symbols`.
#[verifier::external_body]
fn parse_symbols(data: &[u8]) -> (r: Result<Vec<(Option<String>, u64)>, String>)
    ensures
        object_symbols(data@) == match r {
            Ok(v) => Ok(v@.map_values(|s: (Option<String>, u64)| (opt_string_view(s.0), s.1))),
            Err(e) => Err(e@),
        },
{
    match object::File::parse(data) {
        Ok(file) => Ok(
            file.symbols().map(|s| (s.name().ok().map(|n| n.to_string()), s.address())).collect(),
        ),
        Err(err) => Err(err.to_string()),
    }
}

pub open spec fn opt_string_view(s: Option<String>) -> Option<Seq<char>> {
    match s {
        Some(t) => Some(t@),
        None => None,
    }
}

/// The address of the first symbol of `symbols` named `name`.
pub open spec fn first_address(symbols: Seq<(Option<Seq<char>>, u64)>, name: Seq<char>) -> Option<u64>
    decreases symbols.len(),
{
    if symbols.len() == 0 {
        None
    } else if symbols[0].0 == Some(name) {
        Some(symbols[0].1)
    } else {
        first_address(symbols.drop_first(), name)
    }
}

/// What `address_in_bytes` gives for `data`.
pub open spec fn address_in_bytes_spec(data: Seq<u8>) -> Result<u64, Seq<char>> {
    match object_symbols(data) {
        Err(e) => Err("is not a readable ELF: "@ + e),
        Ok(symbols) => match first_address(symbols, control_block_symbol()) {
            Some(a) => Ok(a),
            None => Err("has no _SEGGER_RTT symbol (is RTT enabled in this build?)"@),
        },
    }
}

/// The address of `_SEGGER_RTT` in the ELF `data`. The error is a phrase
/// that follows the file's name in a message.
pub fn address_in_bytes(data: &[u8]) -> (r: Result<u64, String>)
    ensures
        match r {
            Ok(a) => address_in_bytes_spec(data@) == Ok::<u64, Seq<char>>(a),
            Err(e) => address_in_bytes_spec(data@) == Err::<u64, Seq<char>>(e@),
        },
{
    match parse_symbols(data) {
        Err(e) => {
            let mut m = to_owned_string("is not a readable ELF: ");
            push_str(&mut m, e.as_str());
            Err(m)
        },
        Ok(symbols) => {
            let ghost views = symbols@.map_values(
                |s: (Option<String>, u64)| (opt_string_view(s.0), s.1),
            );
            let wanted = ['_', 'S', 'E', 'G', 'G', 'E', 'R', '_', 'R', 'T', 'T'];
            assert(wanted@ =~= control_block_symbol());
            let mut i: usize = 0;
            assert(views.skip(0) =~= views);
            while i < symbols.len()
                invariant
                    i <= symbols@.len(),
                    views.len() == symbols@.len(),
                    wanted@ == control_block_symbol(),
                    object_symbols(data@) == Ok::<Seq<(Option<Seq<char>>, u64)>, Seq<char>>(views),
                    views == symbols@.map_values(
                        |s: (Option<String>, u64)| (opt_string_view(s.0), s.1),
                    ),
                    first_address(views, control_block_symbol()) == first_address(
                        views.skip(i as int),
                        control_block_symbol(),
                    ),
                decreases symbols.len() - i,
            {
                assert(views.skip(i as int).drop_first() =~= views.skip(i + 1));
                assert(views.skip(i as int)[0] == views[i as int]);
                let found = match &symbols[i].0 {
                    Some(name) => {
                        let cs = crate::text::chars_of(name.as_str());
                        crate::text::chars_eq(cs.as_slice(), &wanted)
                    },
                    None => false,
                };
                if found {
                    assert(views[i as int].0 == Some(control_block_symbol()));
                    return Ok(symbols[i].1);
                }
                i += 1;
            }
            Err(to_owned_string("has no _SEGGER_RTT symbol (is RTT enabled in this build?)"))
        },
    }
}

/// The address of `_SEGGER_RTT` in the ELF at `path` whose bytes are
/// `data`; an error names the file.
pub fn control_block_address_in(path: &str, data: &[u8]) -> (r: Result<u64, String>)
    ensures
        match r {
            Ok(a) => address_in_bytes_spec(data@) == Ok::<u64, Seq<char>>(a),
            Err(e) => exists|m: Seq<char>|
                address_in_bytes_spec(data@) == Err::<u64, Seq<char>>(m) && e@ == path@ + " "@ + m,
        },
{
    match address_in_bytes(data) {
        Ok(a) => Ok(a),
        Err(e) => {
            let mut m = to_owned_string(path);
            push_str(&mut m, " ");
            push_str(&mut m, e.as_str());
            Err(m)
        },
    }
}

} // verus!
