//! The JSON reading log.
//!
//! Readings are persisted as a single JSON array; each element is an
//! object `{"data": <tagged reading>, "timestamp": <milliseconds>}`. The
//! file is read, parsed, extended by one entry and written back in full
//! on every append; a file that does not hold a well-formed log is a
//! persistence failure, never silently overwritten.
//!
//! The log text is fully specified here: [`spec_render_log`] gives the
//! exact bytes written for a sequence of entries, the parser accepts
//! exactly that shape, and [`lemma_log_round_trip`] proves that parsing
//! a rendered log gives the entries back. All number fields appear as
//! exact fixed-point decimals (see [`crate::numfmt`]). The caller does
//! the file I/O and hands the bytes in and out.

use vstd::prelude::*;

verus! {

use crate::codec::Data;
use crate::codec::DataV;
use crate::codec::Reading;
use crate::codec::ReadingV;
use crate::errors::CoreError;
use crate::numfmt::push_digits;
use crate::numfmt::push_fixed_i;
use crate::numfmt::push_fixed_u;
use crate::numfmt::spec_digits;
use crate::numfmt::spec_fixed_i;
use crate::numfmt::spec_fixed_u;

/// The key that opens an entry object: `{"data":`.
pub open spec fn spec_lit_entry_open() -> Seq<u8> {
    seq![
        '{' as u8, '"' as u8, 'd' as u8, 'a' as u8, 't' as u8, 'a' as u8, '"' as u8, ':' as u8,
    ]
}

/// The key that follows the reading: `,"timestamp":`.
pub open spec fn spec_lit_timestamp() -> Seq<u8> {
    seq![
        ',' as u8, '"' as u8, 't' as u8, 'i' as u8, 'm' as u8, 'e' as u8, 's' as u8, 't' as u8,
        'a' as u8, 'm' as u8, 'p' as u8, '"' as u8, ':' as u8,
    ]
}

/// The tag and first key of a levels reading: `{"Levels":{"current":`.
pub open spec fn spec_lit_levels_open() -> Seq<u8> {
    seq![
        '{' as u8, '"' as u8, 'L' as u8, 'e' as u8, 'v' as u8, 'e' as u8, 'l' as u8, 's' as u8,
        '"' as u8, ':' as u8, '{' as u8, '"' as u8, 'c' as u8, 'u' as u8, 'r' as u8, 'r' as u8,
        'e' as u8, 'n' as u8, 't' as u8, '"' as u8, ':' as u8,
    ]
}

/// The voltage key of a levels reading: `,"voltage":`.
pub open spec fn spec_lit_voltage() -> Seq<u8> {
    seq![
        ',' as u8, '"' as u8, 'v' as u8, 'o' as u8, 'l' as u8, 't' as u8, 'a' as u8, 'g' as u8,
        'e' as u8, '"' as u8, ':' as u8,
    ]
}

/// The state-of-charge key of a levels reading: `,"state_of_charge":`.
pub open spec fn spec_lit_state_of_charge() -> Seq<u8> {
    seq![
        ',' as u8, '"' as u8, 's' as u8, 't' as u8, 'a' as u8, 't' as u8, 'e' as u8, '_' as u8,
        'o' as u8, 'f' as u8, '_' as u8, 'c' as u8, 'h' as u8, 'a' as u8, 'r' as u8, 'g' as u8,
        'e' as u8, '"' as u8, ':' as u8,
    ]
}

/// The capacity key of a levels reading: `,"capacity":`.
pub open spec fn spec_lit_capacity() -> Seq<u8> {
    seq![
        ',' as u8, '"' as u8, 'c' as u8, 'a' as u8, 'p' as u8, 'a' as u8, 'c' as u8, 'i' as u8,
        't' as u8, 'y' as u8, '"' as u8, ':' as u8,
    ]
}

/// The two closing braces of a levels reading: `}}`.
pub open spec fn spec_lit_two_close() -> Seq<u8> {
    seq!['}' as u8, '}' as u8]
}

/// The tag and list opening of a cell-voltages reading:
/// `{"CellVoltages":{"voltages":[`.
pub open spec fn spec_lit_cells_open() -> Seq<u8> {
    seq![
        '{' as u8, '"' as u8, 'C' as u8, 'e' as u8, 'l' as u8, 'l' as u8, 'V' as u8, 'o' as u8,
        'l' as u8, 't' as u8, 'a' as u8, 'g' as u8, 'e' as u8, 's' as u8, '"' as u8, ':' as u8,
        '{' as u8, '"' as u8, 'v' as u8, 'o' as u8, 'l' as u8, 't' as u8, 'a' as u8, 'g' as u8,
        'e' as u8, 's' as u8, '"' as u8, ':' as u8, '[' as u8,
    ]
}

/// The tag and list opening of a temperatures reading:
/// `{"Temperatures":{"temps":[`.
pub open spec fn spec_lit_temps_open() -> Seq<u8> {
    seq![
        '{' as u8, '"' as u8, 'T' as u8, 'e' as u8, 'm' as u8, 'p' as u8, 'e' as u8, 'r' as u8,
        'a' as u8, 't' as u8, 'u' as u8, 'r' as u8, 'e' as u8, 's' as u8, '"' as u8, ':' as u8,
        '{' as u8, '"' as u8, 't' as u8, 'e' as u8, 'm' as u8, 'p' as u8, 's' as u8, '"' as u8,
        ':' as u8, '[' as u8,
    ]
}

/// The list and object closing of a length-prefixed reading: `]}}`.
pub open spec fn spec_lit_list_close() -> Seq<u8> {
    seq![']' as u8, '}' as u8, '}' as u8]
}

/// The cell-voltage values, comma-separated, tenths of a volt.
pub open spec fn spec_render_u1_list(values: Seq<u16>, first: bool) -> Seq<u8>
    decreases values.len(),
{
    if values.len() == 0 {
        Seq::empty()
    } else {
        let sep: Seq<u8> = if first {
            Seq::empty()
        } else {
            seq![',' as u8]
        };
        sep + spec_fixed_u(values[0] as nat, 1) + spec_render_u1_list(values.drop_first(), false)
    }
}

/// The temperature values, comma-separated, tenths of a degree, signed.
pub open spec fn spec_render_s1_list(values: Seq<i16>, first: bool) -> Seq<u8>
    decreases values.len(),
{
    if values.len() == 0 {
        Seq::empty()
    } else {
        let sep: Seq<u8> = if first {
            Seq::empty()
        } else {
            seq![',' as u8]
        };
        sep + spec_fixed_i(values[0] as int, 1) + spec_render_s1_list(values.drop_first(), false)
    }
}

/// The tagged JSON object of one reading.
pub open spec fn spec_render_reading(reading: ReadingV) -> Seq<u8> {
    match reading {
        ReadingV::Levels { current, voltage, state_of_charge, capacity } => spec_lit_levels_open()
            + spec_fixed_i(current as int, 2) + spec_lit_voltage() + spec_fixed_u(
            voltage as nat,
            1,
        ) + spec_lit_state_of_charge() + spec_fixed_u(state_of_charge as nat, 3)
            + spec_lit_capacity() + spec_fixed_u(capacity as nat, 3) + spec_lit_two_close(),
        ReadingV::CellVoltages { voltages } => spec_lit_cells_open() + spec_render_u1_list(
            voltages,
            true,
        ) + spec_lit_list_close(),
        ReadingV::Temperatures { temps } => spec_lit_temps_open() + spec_render_s1_list(
            temps,
            true,
        ) + spec_lit_list_close(),
    }
}

/// The JSON object of one log entry.
pub open spec fn spec_render_entry(entry: DataV) -> Seq<u8> {
    spec_lit_entry_open() + spec_render_reading(entry.data) + spec_lit_timestamp() + spec_digits(
        entry.timestamp as nat,
    ) + seq!['}' as u8]
}

/// The log entries, comma-separated.
pub open spec fn spec_render_entries(entries: Seq<DataV>, first: bool) -> Seq<u8>
    decreases entries.len(),
{
    if entries.len() == 0 {
        Seq::empty()
    } else {
        let sep: Seq<u8> = if first {
            Seq::empty()
        } else {
            seq![',' as u8]
        };
        sep + spec_render_entry(entries[0]) + spec_render_entries(entries.drop_first(), false)
    }
}

/// The whole log file: a JSON array of entries.
pub open spec fn spec_render_log(entries: Seq<DataV>) -> Seq<u8> {
    seq!['[' as u8] + spec_render_entries(entries, true) + seq![']' as u8]
}

/// The views of a vector of entries.
pub open spec fn spec_views_of(entries: Seq<Data>) -> Seq<DataV> {
    entries.map_values(|d: Data| d@)
}

/// Append one byte sequence to the output.
fn push_bytes(out: &mut Vec<u8>, pattern: &Vec<u8>)
    ensures
        final(out)@ == old(out)@ + pattern@,
{
    let n: usize = pattern.len();
    let mut i: usize = 0;
    while i < n
        invariant
            i <= n,
            n == pattern@.len(),
            out@ == old(out)@ + pattern@.take(i as int),
        decreases n - i,
    {
        out.push(pattern[i]);
        i = i + 1;
        proof {
            assert(out@ =~= old(out)@ + pattern@.take(i as int));
        }
    }
    proof {
        assert(pattern@.take(n as int) =~= pattern@);
    }
}

/// The key that opens an entry object.
fn lit_entry_open() -> (lit: Vec<u8>)
    ensures
        lit@ == spec_lit_entry_open(),
{
    let mut lit: Vec<u8> = Vec::new();
    lit.push('{' as u8);
    lit.push('"' as u8);
    lit.push('d' as u8);
    lit.push('a' as u8);
    lit.push('t' as u8);
    lit.push('a' as u8);
    lit.push('"' as u8);
    lit.push(':' as u8);
    proof {
        assert(lit@ =~= spec_lit_entry_open());
    }
    lit
}

/// The key that follows the reading.
fn lit_timestamp() -> (lit: Vec<u8>)
    ensures
        lit@ == spec_lit_timestamp(),
{
    let mut lit: Vec<u8> = Vec::new();
    lit.push(',' as u8);
    lit.push('"' as u8);
    lit.push('t' as u8);
    lit.push('i' as u8);
    lit.push('m' as u8);
    lit.push('e' as u8);
    lit.push('s' as u8);
    lit.push('t' as u8);
    lit.push('a' as u8);
    lit.push('m' as u8);
    lit.push('p' as u8);
    lit.push('"' as u8);
    lit.push(':' as u8);
    proof {
        assert(lit@ =~= spec_lit_timestamp());
    }
    lit
}

/// The tag and first key of a levels reading.
fn lit_levels_open() -> (lit: Vec<u8>)
    ensures
        lit@ == spec_lit_levels_open(),
{
    let mut lit: Vec<u8> = Vec::new();
    lit.push('{' as u8);
    lit.push('"' as u8);
    lit.push('L' as u8);
    lit.push('e' as u8);
    lit.push('v' as u8);
    lit.push('e' as u8);
    lit.push('l' as u8);
    lit.push('s' as u8);
    lit.push('"' as u8);
    lit.push(':' as u8);
    lit.push('{' as u8);
    lit.push('"' as u8);
    lit.push('c' as u8);
    lit.push('u' as u8);
    lit.push('r' as u8);
    lit.push('r' as u8);
    lit.push('e' as u8);
    lit.push('n' as u8);
    lit.push('t' as u8);
    lit.push('"' as u8);
    lit.push(':' as u8);
    proof {
        assert(lit@ =~= spec_lit_levels_open());
    }
    lit
}

/// The voltage key of a levels reading.
fn lit_voltage() -> (lit: Vec<u8>)
    ensures
        lit@ == spec_lit_voltage(),
{
    let mut lit: Vec<u8> = Vec::new();
    lit.push(',' as u8);
    lit.push('"' as u8);
    lit.push('v' as u8);
    lit.push('o' as u8);
    lit.push('l' as u8);
    lit.push('t' as u8);
    lit.push('a' as u8);
    lit.push('g' as u8);
    lit.push('e' as u8);
    lit.push('"' as u8);
    lit.push(':' as u8);
    proof {
        assert(lit@ =~= spec_lit_voltage());
    }
    lit
}

/// The state-of-charge key of a levels reading.
fn lit_state_of_charge() -> (lit: Vec<u8>)
    ensures
        lit@ == spec_lit_state_of_charge(),
{
    let mut lit: Vec<u8> = Vec::new();
    lit.push(',' as u8);
    lit.push('"' as u8);
    lit.push('s' as u8);
    lit.push('t' as u8);
    lit.push('a' as u8);
    lit.push('t' as u8);
    lit.push('e' as u8);
    lit.push('_' as u8);
    lit.push('o' as u8);
    lit.push('f' as u8);
    lit.push('_' as u8);
    lit.push('c' as u8);
    lit.push('h' as u8);
    lit.push('a' as u8);
    lit.push('r' as u8);
    lit.push('g' as u8);
    lit.push('e' as u8);
    lit.push('"' as u8);
    lit.push(':' as u8);
    proof {
        assert(lit@ =~= spec_lit_state_of_charge());
    }
    lit
}

/// The capacity key of a levels reading.
fn lit_capacity() -> (lit: Vec<u8>)
    ensures
        lit@ == spec_lit_capacity(),
{
    let mut lit: Vec<u8> = Vec::new();
    lit.push(',' as u8);
    lit.push('"' as u8);
    lit.push('c' as u8);
    lit.push('a' as u8);
    lit.push('p' as u8);
    lit.push('a' as u8);
    lit.push('c' as u8);
    lit.push('i' as u8);
    lit.push('t' as u8);
    lit.push('y' as u8);
    lit.push('"' as u8);
    lit.push(':' as u8);
    proof {
        assert(lit@ =~= spec_lit_capacity());
    }
    lit
}

/// The tag and list opening of a cell-voltages reading.
fn lit_cells_open() -> (lit: Vec<u8>)
    ensures
        lit@ == spec_lit_cells_open(),
{
    let mut lit: Vec<u8> = Vec::new();
    lit.push('{' as u8);
    lit.push('"' as u8);
    lit.push('C' as u8);
    lit.push('e' as u8);
    lit.push('l' as u8);
    lit.push('l' as u8);
    lit.push('V' as u8);
    lit.push('o' as u8);
    lit.push('l' as u8);
    lit.push('t' as u8);
    lit.push('a' as u8);
    lit.push('g' as u8);
    lit.push('e' as u8);
    lit.push('s' as u8);
    lit.push('"' as u8);
    lit.push(':' as u8);
    lit.push('{' as u8);
    lit.push('"' as u8);
    lit.push('v' as u8);
    lit.push('o' as u8);
    lit.push('l' as u8);
    lit.push('t' as u8);
    lit.push('a' as u8);
    lit.push('g' as u8);
    lit.push('e' as u8);
    lit.push('s' as u8);
    lit.push('"' as u8);
    lit.push(':' as u8);
    lit.push('[' as u8);
    proof {
        assert(lit@ =~= spec_lit_cells_open());
    }
    lit
}

/// The tag and list opening of a temperatures reading.
fn lit_temps_open() -> (lit: Vec<u8>)
    ensures
        lit@ == spec_lit_temps_open(),
{
    let mut lit: Vec<u8> = Vec::new();
    lit.push('{' as u8);
    lit.push('"' as u8);
    lit.push('T' as u8);
    lit.push('e' as u8);
    lit.push('m' as u8);
    lit.push('p' as u8);
    lit.push('e' as u8);
    lit.push('r' as u8);
    lit.push('a' as u8);
    lit.push('t' as u8);
    lit.push('u' as u8);
    lit.push('r' as u8);
    lit.push('e' as u8);
    lit.push('s' as u8);
    lit.push('"' as u8);
    lit.push(':' as u8);
    lit.push('{' as u8);
    lit.push('"' as u8);
    lit.push('t' as u8);
    lit.push('e' as u8);
    lit.push('m' as u8);
    lit.push('p' as u8);
    lit.push('s' as u8);
    lit.push('"' as u8);
    lit.push(':' as u8);
    lit.push('[' as u8);
    proof {
        assert(lit@ =~= spec_lit_temps_open());
    }
    lit
}

/// The list and object closing of a length-prefixed reading.
fn lit_list_close() -> (lit: Vec<u8>)
    ensures
        lit@ == spec_lit_list_close(),
{
    let mut lit: Vec<u8> = Vec::new();
    lit.push(']' as u8);
    lit.push('}' as u8);
    lit.push('}' as u8);
    proof {
        assert(lit@ =~= spec_lit_list_close());
    }
    lit
}

/// Append the comma-separated cell-voltage values from `index` on.
fn push_u1_list(out: &mut Vec<u8>, values: &Vec<u16>, index: usize, first: bool)
    requires
        index <= values@.len(),
    ensures
        final(out)@ == old(out)@ + spec_render_u1_list(values@.skip(index as int), first),
    decreases values@.len() - index,
{
    if index < values.len() {
        if !first {
            out.push(',' as u8);
        }
        push_fixed_u(out, values[index] as u64, 1);
        push_u1_list(out, values, index + 1, false);
        proof {
            let tail = values@.skip(index as int);
            assert(tail.drop_first() =~= values@.skip(index as int + 1));
            assert(tail[0] == values@[index as int]);
            assert(out@ =~= old(out)@ + spec_render_u1_list(tail, first));
        }
    } else {
        proof {
            assert(values@.skip(index as int) =~= Seq::<u16>::empty());
        }
    }
}

/// Append the comma-separated temperature values from `index` on.
fn push_s1_list(out: &mut Vec<u8>, values: &Vec<i16>, index: usize, first: bool)
    requires
        index <= values@.len(),
    ensures
        final(out)@ == old(out)@ + spec_render_s1_list(values@.skip(index as int), first),
    decreases values@.len() - index,
{
    if index < values.len() {
        if !first {
            out.push(',' as u8);
        }
        push_fixed_i(out, values[index] as i64, 1);
        push_s1_list(out, values, index + 1, false);
        proof {
            let tail = values@.skip(index as int);
            assert(tail.drop_first() =~= values@.skip(index as int + 1));
            assert(tail[0] == values@[index as int]);
            assert(out@ =~= old(out)@ + spec_render_s1_list(tail, first));
        }
    } else {
        proof {
            assert(values@.skip(index as int) =~= Seq::<i16>::empty());
        }
    }
}

/// Append the tagged JSON object of one reading.
fn push_reading(out: &mut Vec<u8>, reading: &Reading)
    ensures
        final(out)@ == old(out)@ + spec_render_reading(reading@),
{
    match reading {
        Reading::Levels { current, voltage, state_of_charge, capacity } => {
            let lit = lit_levels_open();
            push_bytes(out, &lit);
            push_fixed_i(out, *current as i64, 2);
            let lit = lit_voltage();
            push_bytes(out, &lit);
            push_fixed_u(out, *voltage as u64, 1);
            let lit = lit_state_of_charge();
            push_bytes(out, &lit);
            push_fixed_u(out, *state_of_charge as u64, 3);
            let lit = lit_capacity();
            push_bytes(out, &lit);
            push_fixed_u(out, *capacity as u64, 3);
            out.push('}' as u8);
            out.push('}' as u8);
            proof {
                assert(out@ =~= old(out)@ + spec_render_reading(reading@));
            }
        },
        Reading::CellVoltages { voltages } => {
            let lit = lit_cells_open();
            push_bytes(out, &lit);
            push_u1_list(out, voltages, 0, true);
            let lit = lit_list_close();
            push_bytes(out, &lit);
            proof {
                assert(voltages@.skip(0) =~= voltages@);
                assert(out@ =~= old(out)@ + spec_render_reading(reading@));
            }
        },
        Reading::Temperatures { temps } => {
            let lit = lit_temps_open();
            push_bytes(out, &lit);
            push_s1_list(out, temps, 0, true);
            let lit = lit_list_close();
            push_bytes(out, &lit);
            proof {
                assert(temps@.skip(0) =~= temps@);
                assert(out@ =~= old(out)@ + spec_render_reading(reading@));
            }
        },
    }
}

/// Append the JSON object of one log entry.
fn push_entry(out: &mut Vec<u8>, entry: &Data)
    ensures
        final(out)@ == old(out)@ + spec_render_entry(entry@),
{
    let lit = lit_entry_open();
    push_bytes(out, &lit);
    push_reading(out, &entry.data);
    let lit = lit_timestamp();
    push_bytes(out, &lit);
    push_digits(out, entry.timestamp);
    out.push('}' as u8);
    proof {
        assert(out@ =~= old(out)@ + spec_render_entry(entry@));
    }
}

/// Append the comma-separated log entries from `index` on.
fn push_entries(out: &mut Vec<u8>, entries: &Vec<Data>, index: usize, first: bool)
    requires
        index <= entries@.len(),
    ensures
        final(out)@ == old(out)@ + spec_render_entries(
            spec_views_of(entries@.skip(index as int)),
            first,
        ),
    decreases entries@.len() - index,
{
    if index < entries.len() {
        if !first {
            out.push(',' as u8);
        }
        push_entry(out, &entries[index]);
        push_entries(out, entries, index + 1, false);
        proof {
            let tail = spec_views_of(entries@.skip(index as int));
            assert(tail.drop_first() =~= spec_views_of(entries@.skip(index as int + 1)));
            assert(tail[0] == entries@[index as int]@);
            assert(out@ =~= old(out)@ + spec_render_entries(tail, first));
        }
    } else {
        proof {
            assert(spec_views_of(entries@.skip(index as int)) =~= Seq::<DataV>::empty());
        }
    }
}

/// Render the whole log: a JSON array holding the given entries.
pub fn render_log(entries: &Vec<Data>) -> (bytes: Vec<u8>)
    ensures
        bytes@ == spec_render_log(spec_views_of(entries@)),
{
    let mut bytes: Vec<u8> = Vec::new();
    bytes.push('[' as u8);
    push_entries(&mut bytes, entries, 0, true);
    bytes.push(']' as u8);
    proof {
        assert(entries@.skip(0) =~= entries@);
        assert(bytes@ =~= spec_render_log(spec_views_of(entries@)));
    }
    bytes
}

/// The log a fresh file starts with: an empty JSON array.
pub fn empty_log() -> (bytes: Vec<u8>)
    ensures
        bytes@ == spec_render_log(Seq::empty()),
{
    let mut bytes: Vec<u8> = Vec::new();
    bytes.push('[' as u8);
    bytes.push(']' as u8);
    proof {
        assert(bytes@ =~= spec_render_log(Seq::empty()));
    }
    bytes
}

/// The literal stands at `pos`.
pub open spec fn spec_match_at(s: Seq<u8>, pos: int, lit: Seq<u8>) -> bool {
    pos >= 0 && pos + lit.len() <= s.len() && s.subrange(pos, pos + lit.len()) == lit
}

/// Parse a comma-separated list of unsigned tenths values; the list ends
/// at the first position where no further item can start.
pub open spec fn spec_parse_u1_items(s: Seq<u8>, pos: int, first: bool) -> Option<
    (Seq<u16>, int),
>
    decreases s.len() - pos,
    when 0 <= pos <= s.len()
{
    let starts = if first {
        pos < s.len() && crate::numfmt::spec_is_digit(s[pos])
    } else {
        pos < s.len() && s[pos] == (',' as u8)
    };
    if !starts {
        Some((Seq::empty(), pos))
    } else {
        let start = if first {
            pos
        } else {
            pos + 1
        };
        match crate::numfmt::spec_parse_fixed_u(s, start, 1, u16::MAX as int) {
            None => None,
            Some((v, p2)) => {
                if pos < p2 <= s.len() {
                    match spec_parse_u1_items(s, p2, false) {
                        None => None,
                        Some((rest, p3)) => Some((seq![v as u16] + rest, p3)),
                    }
                } else {
                    None
                }
            },
        }
    }
}

/// Parse a comma-separated list of signed tenths values.
pub open spec fn spec_parse_s1_items(s: Seq<u8>, pos: int, first: bool) -> Option<
    (Seq<i16>, int),
>
    decreases s.len() - pos,
    when 0 <= pos <= s.len()
{
    let starts = if first {
        pos < s.len() && (crate::numfmt::spec_is_digit(s[pos]) || s[pos] == ('-' as u8))
    } else {
        pos < s.len() && s[pos] == (',' as u8)
    };
    if !starts {
        Some((Seq::empty(), pos))
    } else {
        let start = if first {
            pos
        } else {
            pos + 1
        };
        match crate::numfmt::spec_parse_fixed_i(s, start, 1, 32768, 32767) {
            None => None,
            Some((v, p2)) => {
                if pos < p2 <= s.len() {
                    match spec_parse_s1_items(s, p2, false) {
                        None => None,
                        Some((rest, p3)) => Some((seq![v as i16] + rest, p3)),
                    }
                } else {
                    None
                }
            },
        }
    }
}

/// Parse one tagged reading object.
pub open spec fn spec_parse_reading(s: Seq<u8>, pos: int) -> Option<(ReadingV, int)> {
    if spec_match_at(s, pos, spec_lit_levels_open()) {
        let p0 = pos + spec_lit_levels_open().len();
        match crate::numfmt::spec_parse_fixed_i(s, p0, 2, 32768, 32767) {
            None => None,
            Some((current, p1)) => {
                if spec_match_at(s, p1, spec_lit_voltage()) {
                    match crate::numfmt::spec_parse_fixed_u(
                        s,
                        p1 + spec_lit_voltage().len(),
                        1,
                        u16::MAX as int,
                    ) {
                        None => None,
                        Some((voltage, p2)) => {
                            if spec_match_at(s, p2, spec_lit_state_of_charge()) {
                                match crate::numfmt::spec_parse_fixed_u(
                                    s,
                                    p2 + spec_lit_state_of_charge().len(),
                                    3,
                                    u32::MAX as int,
                                ) {
                                    None => None,
                                    Some((state_of_charge, p3)) => {
                                        if spec_match_at(s, p3, spec_lit_capacity()) {
                                            match crate::numfmt::spec_parse_fixed_u(
                                                s,
                                                p3 + spec_lit_capacity().len(),
                                                3,
                                                u32::MAX as int,
                                            ) {
                                                None => None,
                                                Some((capacity, p4)) => {
                                                    if spec_match_at(
                                                        s,
                                                        p4,
                                                        spec_lit_two_close(),
                                                    ) {
                                                        Some(
                                                            (
                                                                ReadingV::Levels {
                                                                    current: current as i16,
                                                                    voltage: voltage as u16,
                                                                    state_of_charge:
                                                                        state_of_charge as u32,
                                                                    capacity: capacity as u32,
                                                                },
                                                                p4 + 2,
                                                            ),
                                                        )
                                                    } else {
                                                        None
                                                    }
                                                },
                                            }
                                        } else {
                                            None
                                        }
                                    },
                                }
                            } else {
                                None
                            }
                        },
                    }
                } else {
                    None
                }
            },
        }
    } else if spec_match_at(s, pos, spec_lit_cells_open()) {
        match spec_parse_u1_items(s, pos + spec_lit_cells_open().len(), true) {
            None => None,
            Some((voltages, p1)) => {
                if spec_match_at(s, p1, spec_lit_list_close()) {
                    Some((ReadingV::CellVoltages { voltages }, p1 + 3))
                } else {
                    None
                }
            },
        }
    } else if spec_match_at(s, pos, spec_lit_temps_open()) {
        match spec_parse_s1_items(s, pos + spec_lit_temps_open().len(), true) {
            None => None,
            Some((temps, p1)) => {
                if spec_match_at(s, p1, spec_lit_list_close()) {
                    Some((ReadingV::Temperatures { temps }, p1 + 3))
                } else {
                    None
                }
            },
        }
    } else {
        None
    }
}

/// Parse one log entry object.
pub open spec fn spec_parse_entry(s: Seq<u8>, pos: int) -> Option<(DataV, int)> {
    if !spec_match_at(s, pos, spec_lit_entry_open()) {
        None
    } else {
        match spec_parse_reading(s, pos + spec_lit_entry_open().len()) {
            None => None,
            Some((reading, p1)) => {
                if spec_match_at(s, p1, spec_lit_timestamp()) {
                    match crate::numfmt::spec_parse_uint(s, p1 + spec_lit_timestamp().len()) {
                        None => None,
                        Some((ts, p2)) => {
                            if ts <= u64::MAX && p2 < s.len() && s[p2] == ('}' as u8) {
                                Some((DataV { data: reading, timestamp: ts as u64 }, p2 + 1))
                            } else {
                                None
                            }
                        },
                    }
                } else {
                    None
                }
            },
        }
    }
}

/// Parse a comma-separated list of entries.
pub open spec fn spec_parse_entries(s: Seq<u8>, pos: int, first: bool) -> Option<
    (Seq<DataV>, int),
>
    decreases s.len() - pos,
    when 0 <= pos <= s.len()
{
    let starts = if first {
        pos < s.len() && s[pos] == ('{' as u8)
    } else {
        pos < s.len() && s[pos] == (',' as u8)
    };
    if !starts {
        Some((Seq::empty(), pos))
    } else {
        let start = if first {
            pos
        } else {
            pos + 1
        };
        match spec_parse_entry(s, start) {
            None => None,
            Some((entry, p2)) => {
                if pos < p2 <= s.len() {
                    match spec_parse_entries(s, p2, false) {
                        None => None,
                        Some((rest, p3)) => Some((seq![entry] + rest, p3)),
                    }
                } else {
                    None
                }
            },
        }
    }
}

/// Parse a whole log file: a JSON array of entries and nothing else.
pub open spec fn spec_parse_log(s: Seq<u8>) -> Option<Seq<DataV>> {
    if s.len() >= 1 && s[0] == ('[' as u8) {
        match spec_parse_entries(s, 1, true) {
            None => None,
            Some((entries, p)) => {
                if p + 1 == s.len() && s[p] == (']' as u8) {
                    Some(entries)
                } else {
                    None
                }
            },
        }
    } else {
        None
    }
}

/// Whether the literal stands at `pos`.
fn match_at(s: &Vec<u8>, pos: usize, lit: &Vec<u8>) -> (matched: bool)
    ensures
        matched == spec_match_at(s@, pos as int, lit@),
{
    let n: usize = s.len();
    let m: usize = lit.len();
    if pos > n || m > n - pos {
        return false;
    }
    let mut i: usize = 0;
    while i < m
        invariant
            i <= m,
            pos + m <= n,
            n == s@.len(),
            m == lit@.len(),
            forall|k: int| 0 <= k < i ==> s@[pos + k] == lit@[k],
        decreases m - i,
    {
        if s[pos + i] != lit[i] {
            proof {
                assert(s@.subrange(pos as int, pos + m)[i as int] != lit@[i as int]);
            }
            return false;
        }
        i = i + 1;
    }
    proof {
        assert(s@.subrange(pos as int, pos + m) =~= lit@);
    }
    true
}

/// Parse a comma-separated list of unsigned tenths values.
fn parse_u1_items(s: &Vec<u8>, pos: usize, first: bool) -> (parsed: Option<(Vec<u16>, usize)>)
    requires
        pos <= s@.len(),
    ensures
        match parsed {
            Some((values, p)) => spec_parse_u1_items(s@, pos as int, first) == Some(
                (values@, p as int),
            ) && pos <= p <= s@.len(),
            None => spec_parse_u1_items(s@, pos as int, first) is None,
        },
    decreases s@.len() - pos,
{
    let starts = if first {
        pos < s.len() && ('0' as u8) <= s[pos] && s[pos] <= ('9' as u8)
    } else {
        pos < s.len() && s[pos] == (',' as u8)
    };
    if !starts {
        return Some((Vec::new(), pos));
    }
    let start = if first {
        pos
    } else {
        pos + 1
    };
    match crate::numfmt::parse_fixed_u(s, start, 1, 65535) {
        None => None,
        Some((v, p2)) => {
            if !(pos < p2 && p2 <= s.len()) {
                return None;
            }
            match parse_u1_items(s, p2, false) {
                None => None,
                Some((mut rest, p3)) => {
                    let mut values: Vec<u16> = Vec::new();
                    values.push(v as u16);
                    values.append(&mut rest);
                    Some((values, p3))
                },
            }
        },
    }
}

/// Parse a comma-separated list of signed tenths values.
fn parse_s1_items(s: &Vec<u8>, pos: usize, first: bool) -> (parsed: Option<(Vec<i16>, usize)>)
    requires
        pos <= s@.len(),
    ensures
        match parsed {
            Some((values, p)) => spec_parse_s1_items(s@, pos as int, first) == Some(
                (values@, p as int),
            ) && pos <= p <= s@.len(),
            None => spec_parse_s1_items(s@, pos as int, first) is None,
        },
    decreases s@.len() - pos,
{
    let starts = if first {
        pos < s.len() && (('0' as u8) <= s[pos] && s[pos] <= ('9' as u8) || s[pos] == ('-' as u8))
    } else {
        pos < s.len() && s[pos] == (',' as u8)
    };
    if !starts {
        return Some((Vec::new(), pos));
    }
    let start = if first {
        pos
    } else {
        pos + 1
    };
    match crate::numfmt::parse_fixed_i(s, start, 1, 32768, 32767) {
        None => None,
        Some((v, p2)) => {
            if !(pos < p2 && p2 <= s.len()) {
                return None;
            }
            match parse_s1_items(s, p2, false) {
                None => None,
                Some((mut rest, p3)) => {
                    let mut values: Vec<i16> = Vec::new();
                    values.push(v as i16);
                    values.append(&mut rest);
                    Some((values, p3))
                },
            }
        },
    }
}

/// Parse one tagged reading object.
fn parse_reading(s: &Vec<u8>, pos: usize) -> (parsed: Option<(Reading, usize)>)
    requires
        pos <= s@.len(),
    ensures
        match parsed {
            Some((reading, p)) => spec_parse_reading(s@, pos as int) == Some(
                (reading@, p as int),
            ) && p <= s@.len(),
            None => spec_parse_reading(s@, pos as int) is None,
        },
{
    let _len: usize = s.len();
    let levels_open = lit_levels_open();
    if match_at(s, pos, &levels_open) {
        let p0 = pos + levels_open.len();
        match crate::numfmt::parse_fixed_i(s, p0, 2, 32768, 32767) {
            None => None,
            Some((current, p1)) => {
                let voltage_key = lit_voltage();
                if !match_at(s, p1, &voltage_key) {
                    return None;
                }
                match crate::numfmt::parse_fixed_u(s, p1 + voltage_key.len(), 1, 65535) {
                    None => None,
                    Some((voltage, p2)) => {
                        let soc_key = lit_state_of_charge();
                        if !match_at(s, p2, &soc_key) {
                            return None;
                        }
                        match crate::numfmt::parse_fixed_u(s, p2 + soc_key.len(), 3, u32::MAX as u64)
                        {
                            None => None,
                            Some((state_of_charge, p3)) => {
                                let capacity_key = lit_capacity();
                                if !match_at(s, p3, &capacity_key) {
                                    return None;
                                }
                                match crate::numfmt::parse_fixed_u(
                                    s,
                                    p3 + capacity_key.len(),
                                    3,
                                    u32::MAX as u64,
                                ) {
                                    None => None,
                                    Some((capacity, p4)) => {
                                        let two_close = lit_two_close();
                                        if !match_at(s, p4, &two_close) {
                                            return None;
                                        }
                                        Some(
                                            (
                                                Reading::Levels {
                                                    current: current as i16,
                                                    voltage: voltage as u16,
                                                    state_of_charge: state_of_charge as u32,
                                                    capacity: capacity as u32,
                                                },
                                                p4 + 2,
                                            ),
                                        )
                                    },
                                }
                            },
                        }
                    },
                }
            },
        }
    } else {
        let cells_open = lit_cells_open();
        if match_at(s, pos, &cells_open) {
            match parse_u1_items(s, pos + cells_open.len(), true) {
                None => None,
                Some((voltages, p1)) => {
                    let list_close = lit_list_close();
                    if !match_at(s, p1, &list_close) {
                        return None;
                    }
                    Some((Reading::CellVoltages { voltages }, p1 + 3))
                },
            }
        } else {
            let temps_open = lit_temps_open();
            if match_at(s, pos, &temps_open) {
                match parse_s1_items(s, pos + temps_open.len(), true) {
                    None => None,
                    Some((temps, p1)) => {
                        let list_close = lit_list_close();
                        if !match_at(s, p1, &list_close) {
                            return None;
                        }
                        Some((Reading::Temperatures { temps }, p1 + 3))
                    },
                }
            } else {
                None
            }
        }
    }
}

/// The two closing braces of a levels reading.
fn lit_two_close() -> (lit: Vec<u8>)
    ensures
        lit@ == spec_lit_two_close(),
{
    let mut lit: Vec<u8> = Vec::new();
    lit.push('}' as u8);
    lit.push('}' as u8);
    proof {
        assert(lit@ =~= spec_lit_two_close());
    }
    lit
}

/// Parse one log entry object.
fn parse_entry(s: &Vec<u8>, pos: usize) -> (parsed: Option<(Data, usize)>)
    requires
        pos <= s@.len(),
    ensures
        match parsed {
            Some((entry, p)) => spec_parse_entry(s@, pos as int) == Some((entry@, p as int))
                && p <= s@.len(),
            None => spec_parse_entry(s@, pos as int) is None,
        },
{
    let _len: usize = s.len();
    let entry_open = lit_entry_open();
    if !match_at(s, pos, &entry_open) {
        return None;
    }
    match parse_reading(s, pos + entry_open.len()) {
        None => None,
        Some((reading, p1)) => {
            let ts_key = lit_timestamp();
            if !match_at(s, p1, &ts_key) {
                return None;
            }
            match crate::numfmt::parse_uint(s, p1 + ts_key.len()) {
                None => None,
                Some((ts, p2)) => {
                    if p2 < s.len() && s[p2] == ('}' as u8) {
                        Some((Data { data: reading, timestamp: ts }, p2 + 1))
                    } else {
                        None
                    }
                },
            }
        },
    }
}

/// Parse a comma-separated list of entries.
fn parse_entries(s: &Vec<u8>, pos: usize, first: bool) -> (parsed: Option<(Vec<Data>, usize)>)
    requires
        pos <= s@.len(),
    ensures
        match parsed {
            Some((entries, p)) => spec_parse_entries(s@, pos as int, first) == Some(
                (spec_views_of(entries@), p as int),
            ) && pos <= p <= s@.len(),
            None => spec_parse_entries(s@, pos as int, first) is None,
        },
    decreases s@.len() - pos,
{
    let starts = if first {
        pos < s.len() && s[pos] == ('{' as u8)
    } else {
        pos < s.len() && s[pos] == (',' as u8)
    };
    if !starts {
        proof {
            assert(spec_views_of(Seq::empty()) =~= Seq::<DataV>::empty());
        }
        return Some((Vec::new(), pos));
    }
    let start = if first {
        pos
    } else {
        pos + 1
    };
    match parse_entry(s, start) {
        None => None,
        Some((entry, p2)) => {
            if !(pos < p2 && p2 <= s.len()) {
                return None;
            }
            match parse_entries(s, p2, false) {
                None => None,
                Some((mut rest, p3)) => {
                    let ghost entry_view = entry@;
                    let ghost rest_views = spec_views_of(rest@);
                    let mut entries: Vec<Data> = Vec::new();
                    entries.push(entry);
                    entries.append(&mut rest);
                    proof {
                        assert(spec_views_of(entries@) =~= seq![entry_view] + rest_views);
                    }
                    Some((entries, p3))
                },
            }
        },
    }
}

/// Parse a whole log file. `None` exactly when the bytes are not a log
/// this module would render.
pub fn parse_log(s: &Vec<u8>) -> (parsed: Option<Vec<Data>>)
    ensures
        match parsed {
            Some(entries) => spec_parse_log(s@) == Some(spec_views_of(entries@)),
            None => spec_parse_log(s@) is None,
        },
{
    if !(s.len() >= 1 && s[0] == ('[' as u8)) {
        return None;
    }
    match parse_entries(s, 1, true) {
        None => None,
        Some((entries, p)) => {
            if p < s.len() && s[p] == (']' as u8) && p + 1 == s.len() {
                Some(entries)
            } else {
                None
            }
        },
    }
}

/// Extend a log with one entry: parse the existing bytes, append, render
/// back. Succeeds exactly when the existing bytes are a well-formed log;
/// anything else is a [`CoreError::PersistenceFailure`] and the file is
/// left untouched by the caller.
pub fn append_to_log(content: &Vec<u8>, entry: Data) -> (appended: Result<Vec<u8>, CoreError>)
    ensures
        match appended {
            Ok(bytes) => spec_parse_log(content@) matches Some(entries) && bytes@
                == spec_render_log(entries.push(entry@)),
            Err(e) => spec_parse_log(content@) is None && e == CoreError::PersistenceFailure,
        },
{
    match parse_log(content) {
        None => Err(CoreError::PersistenceFailure),
        Some(mut entries) => {
            let ghost old_views = spec_views_of(entries@);
            let ghost entry_view = entry@;
            entries.push(entry);
            let bytes = render_log(&entries);
            proof {
                assert(spec_views_of(entries@) =~= old_views.push(entry_view));
            }
            Ok(bytes)
        },
    }
}

/// Decode one notification under the levels request and render it as a
/// single log entry with the given receipt timestamp: the work of a
/// one-shot levels request, between the awaited notification and the
/// caller that ships the JSON.
pub fn single_levels_event_json(raw: &Vec<u8>, timestamp_ms: u64) -> (rendered: Result<
    Vec<u8>,
    CoreError,
>)
    ensures
        match rendered {
            Ok(bytes) => crate::codec::spec_decode_notification(
                crate::codec::RequestType::Levels,
                raw@,
            ) matches Ok(r) && bytes@ == spec_render_entry(
                DataV { data: r, timestamp: timestamp_ms },
            ),
            Err(e) => crate::codec::spec_decode_notification(
                crate::codec::RequestType::Levels,
                raw@,
            ) == Err::<ReadingV, CoreError>(e),
        },
{
    match crate::codec::decode_notification(raw, &crate::codec::RequestType::Levels) {
        Ok(reading) => {
            let entry = Data { data: reading, timestamp: timestamp_ms };
            let mut bytes: Vec<u8> = Vec::new();
            push_entry(&mut bytes, &entry);
            proof {
                assert(bytes@ =~= spec_render_entry(entry@));
            }
            Ok(bytes)
        },
        Err(e) => Err(e),
    }
}

/// Parsing a rendered list of unsigned tenths values, terminated by the
/// closing bracket, yields the values back.
proof fn lemma_parse_u1_items_of_render(s: Seq<u8>, pos: int, values: Seq<u16>, first: bool)
    requires
        0 <= pos,
        pos + spec_render_u1_list(values, first).len() < s.len(),
        s.subrange(pos, pos + spec_render_u1_list(values, first).len()) == spec_render_u1_list(
            values,
            first,
        ),
        s[pos + spec_render_u1_list(values, first).len()] == (']' as u8),
    ensures
        spec_parse_u1_items(s, pos, first) == Some(
            (values, pos + spec_render_u1_list(values, first).len()),
        ),
    decreases values.len(),
{
    let rendered = spec_render_u1_list(values, first);
    if values.len() == 0 {
        assert(s[pos] == (']' as u8));
        assert(!crate::numfmt::spec_is_digit(s[pos]));
    } else {
        let sep_len: int = if first { 0 } else { 1 };
        let number = spec_fixed_u(values[0] as nat, 1);
        let rest = spec_render_u1_list(values.drop_first(), false);
        assert(rendered.len() == sep_len + number.len() + rest.len());
        let start = pos + sep_len;
        let p2 = start + number.len();
        crate::numfmt::lemma_digits_are_digits(values[0] as nat / crate::numfmt::spec_pow10(1));
        assert(number[0] == spec_digits(values[0] as nat / crate::numfmt::spec_pow10(1))[0]);
        assert(s.subrange(start, p2) =~= number) by {
            assert forall|i: int| 0 <= i < number.len() implies s.subrange(start, p2)[i]
                == number[i] by {
                assert(s[start + i] == rendered[sep_len + i]);
                assert(rendered[sep_len + i] == number[i]);
            }
        }
        if first {
            assert(s[pos] == number[0]);
            assert(crate::numfmt::spec_is_digit(s[pos]));
        } else {
            assert(s[pos] == rendered[0]);
            assert(rendered[0] == (',' as u8));
        }
        // The byte after the number is a comma (more values) or the
        // closing bracket: not a digit either way.
        if values.len() > 1 {
            assert(s[p2] == rendered[sep_len + number.len() as int]);
            assert(rendered[sep_len + number.len() as int] == rest[0]);
            assert(rest[0] == (',' as u8));
        } else {
            assert(rest =~= Seq::<u8>::empty());
            assert(p2 == pos + rendered.len());
            assert(s[p2] == (']' as u8));
        }
        assert(!crate::numfmt::spec_is_digit(s[p2]));
        crate::numfmt::lemma_parse_fixed_u_of_render(
            s,
            start,
            values[0] as nat,
            1,
            u16::MAX as int,
        );
        assert(s.subrange(p2, p2 + rest.len()) =~= rest) by {
            assert forall|i: int| 0 <= i < rest.len() implies s.subrange(p2, p2 + rest.len())[i]
                == rest[i] by {
                assert(s[p2 + i] == rendered[sep_len + number.len() as int + i]);
                assert(rendered[sep_len + number.len() as int + i] == rest[i]);
            }
        }
        lemma_parse_u1_items_of_render(s, p2, values.drop_first(), false);
        assert(seq![values[0]] + values.drop_first() =~= values);
    }
}

/// Parsing a rendered list of signed tenths values, terminated by the
/// closing bracket, yields the values back.
proof fn lemma_parse_s1_items_of_render(s: Seq<u8>, pos: int, values: Seq<i16>, first: bool)
    requires
        0 <= pos,
        pos + spec_render_s1_list(values, first).len() < s.len(),
        s.subrange(pos, pos + spec_render_s1_list(values, first).len()) == spec_render_s1_list(
            values,
            first,
        ),
        s[pos + spec_render_s1_list(values, first).len()] == (']' as u8),
    ensures
        spec_parse_s1_items(s, pos, first) == Some(
            (values, pos + spec_render_s1_list(values, first).len()),
        ),
    decreases values.len(),
{
    let rendered = spec_render_s1_list(values, first);
    if values.len() == 0 {
        assert(s[pos] == (']' as u8));
        assert(!crate::numfmt::spec_is_digit(s[pos]));
    } else {
        let sep_len: int = if first { 0 } else { 1 };
        let number = spec_fixed_i(values[0] as int, 1);
        let rest = spec_render_s1_list(values.drop_first(), false);
        assert(rendered.len() == sep_len + number.len() + rest.len());
        let start = pos + sep_len;
        let p2 = start + number.len();
        if values[0] < 0 {
            assert(number[0] == ('-' as u8));
        } else {
            crate::numfmt::lemma_digits_are_digits(
                values[0] as nat / crate::numfmt::spec_pow10(1),
            );
            assert(number[0] == spec_digits(values[0] as nat / crate::numfmt::spec_pow10(1))[0]);
        }
        assert(s.subrange(start, p2) =~= number) by {
            assert forall|i: int| 0 <= i < number.len() implies s.subrange(start, p2)[i]
                == number[i] by {
                assert(s[start + i] == rendered[sep_len + i]);
                assert(rendered[sep_len + i] == number[i]);
            }
        }
        if first {
            assert(s[pos] == number[0]);
            assert(crate::numfmt::spec_is_digit(s[pos]) || s[pos] == ('-' as u8));
        } else {
            assert(s[pos] == rendered[0]);
            assert(rendered[0] == (',' as u8));
        }
        if values.len() > 1 {
            assert(s[p2] == rendered[sep_len + number.len() as int]);
            assert(rendered[sep_len + number.len() as int] == rest[0]);
            assert(rest[0] == (',' as u8));
        } else {
            assert(rest =~= Seq::<u8>::empty());
            assert(p2 == pos + rendered.len());
            assert(s[p2] == (']' as u8));
        }
        assert(!crate::numfmt::spec_is_digit(s[p2]));
        crate::numfmt::lemma_parse_fixed_i_of_render(s, start, values[0] as int, 1, 32768, 32767);
        assert(s.subrange(p2, p2 + rest.len()) =~= rest) by {
            assert forall|i: int| 0 <= i < rest.len() implies s.subrange(p2, p2 + rest.len())[i]
                == rest[i] by {
                assert(s[p2 + i] == rendered[sep_len + number.len() as int + i]);
                assert(rendered[sep_len + number.len() as int + i] == rest[i]);
            }
        }
        lemma_parse_s1_items_of_render(s, p2, values.drop_first(), false);
        assert(seq![values[0]] + values.drop_first() =~= values);
    }
}

/// The literal at the start of a rendered block stands at `pos` in the
/// enclosing buffer.
proof fn lemma_match_prefix(s: Seq<u8>, pos: int, rendered: Seq<u8>, lit: Seq<u8>)
    requires
        0 <= pos,
        pos + rendered.len() <= s.len(),
        s.subrange(pos, pos + rendered.len()) == rendered,
        lit.len() <= rendered.len(),
        rendered.subrange(0, lit.len() as int) == lit,
    ensures
        spec_match_at(s, pos, lit),
{
    assert(s.subrange(pos, pos + lit.len()) =~= lit) by {
        assert forall|i: int| 0 <= i < lit.len() implies s.subrange(pos, pos + lit.len())[i]
            == lit[i] by {
            assert(s[pos + i] == rendered[i]);
            assert(rendered[i] == rendered.subrange(0, lit.len() as int)[i]);
        }
    }
}

/// Parsing a rendered reading yields the reading back.
#[verifier::rlimit(100)]
#[verifier::spinoff_prover]
proof fn lemma_parse_reading_of_render(s: Seq<u8>, pos: int, reading: ReadingV)
    requires
        0 <= pos,
        pos + spec_render_reading(reading).len() <= s.len(),
        s.subrange(pos, pos + spec_render_reading(reading).len()) == spec_render_reading(reading),
    ensures
        spec_parse_reading(s, pos) == Some((reading, pos + spec_render_reading(reading).len())),
{
    let rendered = spec_render_reading(reading);
    match reading {
        ReadingV::Levels { current, voltage, state_of_charge, capacity } => {
            let lit0 = spec_lit_levels_open();
            let num0 = spec_fixed_i(current as int, 2);
            let lit1 = spec_lit_voltage();
            let num1 = spec_fixed_u(voltage as nat, 1);
            let lit2 = spec_lit_state_of_charge();
            let num2 = spec_fixed_u(state_of_charge as nat, 3);
            let lit3 = spec_lit_capacity();
            let num3 = spec_fixed_u(capacity as nat, 3);
            let o0 = pos + lit0.len();
            let o1 = o0 + num0.len();
            let o2 = o1 + lit1.len();
            let o3 = o2 + num1.len();
            let o4 = o3 + lit2.len();
            let o5 = o4 + num2.len();
            let o6 = o5 + lit3.len();
            let o7 = o6 + num3.len();
            assert(rendered =~= lit0 + num0 + lit1 + num1 + lit2 + num2 + lit3 + num3
                + spec_lit_two_close());
            assert(rendered.subrange(0, lit0.len() as int) =~= lit0);
            lemma_match_prefix(s, pos, rendered, lit0);

            assert(s.subrange(o0, o1) =~= num0) by {
                assert forall|i: int| 0 <= i < num0.len() implies s.subrange(o0, o1)[i]
                    == num0[i] by {
                    assert(s[o0 + i] == rendered[lit0.len() as int + i]);
                    assert(rendered[lit0.len() as int + i] == num0[i]);
                }
            }
            assert(s[o1] == rendered[lit0.len() as int + num0.len()]);
            assert(s[o1] == (',' as u8));
            assert(!crate::numfmt::spec_is_digit(s[o1]));
            crate::numfmt::lemma_parse_fixed_i_of_render(s, o0, current as int, 2, 32768, 32767);

            assert(s.subrange(o1, o1 + lit1.len()) =~= lit1) by {
                assert forall|i: int| 0 <= i < lit1.len() implies s.subrange(
                    o1,
                    o1 + lit1.len(),
                )[i] == lit1[i] by {
                    assert(s[o1 + i] == rendered[lit0.len() as int + num0.len() + i]);
                    assert(rendered[lit0.len() as int + num0.len() + i] == lit1[i]);
                }
            }
            assert(spec_match_at(s, o1, lit1));

            assert(s.subrange(o2, o3) =~= num1) by {
                assert forall|i: int| 0 <= i < num1.len() implies s.subrange(o2, o3)[i]
                    == num1[i] by {
                    assert(s[o2 + i] == rendered[lit0.len() as int + num0.len() + lit1.len() + i]);
                    assert(rendered[lit0.len() as int + num0.len() + lit1.len() + i] == num1[i]);
                }
            }
            assert(s[o3] == rendered[lit0.len() as int + num0.len() + lit1.len() + num1.len()]);
            assert(s[o3] == (',' as u8));
            assert(!crate::numfmt::spec_is_digit(s[o3]));
            crate::numfmt::lemma_parse_fixed_u_of_render(s, o2, voltage as nat, 1, u16::MAX as int);

            let base2: int = lit0.len() as int + num0.len() + lit1.len() + num1.len();
            assert(s.subrange(o3, o4) =~= lit2) by {
                assert forall|i: int| 0 <= i < lit2.len() implies s.subrange(o3, o4)[i]
                    == lit2[i] by {
                    assert(s[o3 + i] == rendered[base2 + i]);
                    assert(rendered[base2 + i] == lit2[i]);
                }
            }
            assert(spec_match_at(s, o3, lit2));

            assert(s.subrange(o4, o5) =~= num2) by {
                assert forall|i: int| 0 <= i < num2.len() implies s.subrange(o4, o5)[i]
                    == num2[i] by {
                    assert(s[o4 + i] == rendered[base2 + lit2.len() + i]);
                    assert(rendered[base2 + lit2.len() + i] == num2[i]);
                }
            }
            assert(s[o5] == rendered[base2 + lit2.len() + num2.len()]);
            assert(s[o5] == (',' as u8));
            assert(!crate::numfmt::spec_is_digit(s[o5]));
            crate::numfmt::lemma_parse_fixed_u_of_render(
                s,
                o4,
                state_of_charge as nat,
                3,
                u32::MAX as int,
            );

            let base3: int = base2 + lit2.len() + num2.len();
            assert(s.subrange(o5, o6) =~= lit3) by {
                assert forall|i: int| 0 <= i < lit3.len() implies s.subrange(o5, o6)[i]
                    == lit3[i] by {
                    assert(s[o5 + i] == rendered[base3 + i]);
                    assert(rendered[base3 + i] == lit3[i]);
                }
            }
            assert(spec_match_at(s, o5, lit3));

            assert(s.subrange(o6, o7) =~= num3) by {
                assert forall|i: int| 0 <= i < num3.len() implies s.subrange(o6, o7)[i]
                    == num3[i] by {
                    assert(s[o6 + i] == rendered[base3 + lit3.len() + i]);
                    assert(rendered[base3 + lit3.len() + i] == num3[i]);
                }
            }
            assert(s[o7] == rendered[base3 + lit3.len() + num3.len()]);
            assert(s[o7] == ('}' as u8));
            assert(!crate::numfmt::spec_is_digit(s[o7]));
            crate::numfmt::lemma_parse_fixed_u_of_render(
                s,
                o6,
                capacity as nat,
                3,
                u32::MAX as int,
            );

            let base4: int = base3 + lit3.len() + num3.len();
            assert(s.subrange(o7, o7 + 2) =~= spec_lit_two_close()) by {
                assert forall|i: int| 0 <= i < 2 implies s.subrange(o7, o7 + 2)[i]
                    == spec_lit_two_close()[i] by {
                    assert(s[o7 + i] == rendered[base4 + i]);
                    assert(rendered[base4 + i] == spec_lit_two_close()[i]);
                }
            }
            assert(spec_match_at(s, o7, spec_lit_two_close()));
            assert((current as i16) as int == current);
        },
        ReadingV::CellVoltages { voltages } => {
            let lit0 = spec_lit_cells_open();
            let items = spec_render_u1_list(voltages, true);
            let close = spec_lit_list_close();
            assert(rendered =~= lit0 + items + close);
            assert(rendered.subrange(0, lit0.len() as int) =~= lit0);
            lemma_match_prefix(s, pos, rendered, lit0);
            assert(!spec_match_at(s, pos, spec_lit_levels_open())) by {
                if spec_match_at(s, pos, spec_lit_levels_open()) {
                    assert(s.subrange(pos, pos + spec_lit_levels_open().len())[2]
                        == spec_lit_levels_open()[2]);
                    assert(s[pos + 2] == ('L' as u8));
                    assert(s[pos + 2] == rendered[2]);
                    assert(rendered[2] == ('C' as u8));
                }
            }
            let o0 = pos + lit0.len();
            let o1 = o0 + items.len();
            assert(s.subrange(o0, o1) =~= items) by {
                assert forall|i: int| 0 <= i < items.len() implies s.subrange(o0, o1)[i]
                    == items[i] by {
                    assert(s[o0 + i] == rendered[lit0.len() as int + i]);
                    assert(rendered[lit0.len() as int + i] == items[i]);
                }
            }
            assert(s[o1] == rendered[lit0.len() as int + items.len()]);
            assert(s[o1] == (']' as u8));
            lemma_parse_u1_items_of_render(s, o0, voltages, true);
            assert(s.subrange(o1, o1 + 3) =~= close) by {
                assert forall|i: int| 0 <= i < 3 implies s.subrange(o1, o1 + 3)[i]
                    == close[i] by {
                    assert(s[o1 + i] == rendered[lit0.len() as int + items.len() + i]);
                    assert(rendered[lit0.len() as int + items.len() + i] == close[i]);
                }
            }
            assert(spec_match_at(s, o1, close));
        },
        ReadingV::Temperatures { temps } => {
            let lit0 = spec_lit_temps_open();
            let items = spec_render_s1_list(temps, true);
            let close = spec_lit_list_close();
            assert(rendered =~= lit0 + items + close);
            assert(rendered.subrange(0, lit0.len() as int) =~= lit0);
            lemma_match_prefix(s, pos, rendered, lit0);
            assert(!spec_match_at(s, pos, spec_lit_levels_open())) by {
                if spec_match_at(s, pos, spec_lit_levels_open()) {
                    assert(s.subrange(pos, pos + spec_lit_levels_open().len())[2]
                        == spec_lit_levels_open()[2]);
                    assert(s[pos + 2] == ('L' as u8));
                    assert(s[pos + 2] == rendered[2]);
                    assert(rendered[2] == ('T' as u8));
                }
            }
            assert(!spec_match_at(s, pos, spec_lit_cells_open())) by {
                if spec_match_at(s, pos, spec_lit_cells_open()) {
                    assert(s.subrange(pos, pos + spec_lit_cells_open().len())[2]
                        == spec_lit_cells_open()[2]);
                    assert(s[pos + 2] == ('C' as u8));
                    assert(s[pos + 2] == rendered[2]);
                    assert(rendered[2] == ('T' as u8));
                }
            }
            let o0 = pos + lit0.len();
            let o1 = o0 + items.len();
            assert(s.subrange(o0, o1) =~= items) by {
                assert forall|i: int| 0 <= i < items.len() implies s.subrange(o0, o1)[i]
                    == items[i] by {
                    assert(s[o0 + i] == rendered[lit0.len() as int + i]);
                    assert(rendered[lit0.len() as int + i] == items[i]);
                }
            }
            assert(s[o1] == rendered[lit0.len() as int + items.len()]);
            assert(s[o1] == (']' as u8));
            lemma_parse_s1_items_of_render(s, o0, temps, true);
            assert(s.subrange(o1, o1 + 3) =~= close) by {
                assert forall|i: int| 0 <= i < 3 implies s.subrange(o1, o1 + 3)[i]
                    == close[i] by {
                    assert(s[o1 + i] == rendered[lit0.len() as int + items.len() + i]);
                    assert(rendered[lit0.len() as int + items.len() + i] == close[i]);
                }
            }
            assert(spec_match_at(s, o1, close));
        },
    }
}

/// Parsing a rendered entry yields the entry back.
#[verifier::rlimit(100)]
#[verifier::spinoff_prover]
proof fn lemma_parse_entry_of_render(s: Seq<u8>, pos: int, entry: DataV)
    requires
        0 <= pos,
        pos + spec_render_entry(entry).len() <= s.len(),
        s.subrange(pos, pos + spec_render_entry(entry).len()) == spec_render_entry(entry),
    ensures
        spec_parse_entry(s, pos) == Some((entry, pos + spec_render_entry(entry).len())),
{
    let rendered = spec_render_entry(entry);
    let lit0 = spec_lit_entry_open();
    let body = spec_render_reading(entry.data);
    let lit1 = spec_lit_timestamp();
    let digits = spec_digits(entry.timestamp as nat);
    assert(rendered =~= lit0 + body + lit1 + digits + seq!['}' as u8]);
    assert(rendered.subrange(0, lit0.len() as int) =~= lit0);
    lemma_match_prefix(s, pos, rendered, lit0);
    let o0 = pos + lit0.len();
    let o1 = o0 + body.len();
    let o2 = o1 + lit1.len();
    let o3 = o2 + digits.len();
    assert(s.subrange(o0, o1) =~= body) by {
        assert forall|i: int| 0 <= i < body.len() implies s.subrange(o0, o1)[i] == body[i] by {
            assert(s[o0 + i] == rendered[lit0.len() as int + i]);
            assert(rendered[lit0.len() as int + i] == body[i]);
        }
    }
    lemma_parse_reading_of_render(s, o0, entry.data);
    assert(s.subrange(o1, o2) =~= lit1) by {
        assert forall|i: int| 0 <= i < lit1.len() implies s.subrange(o1, o2)[i] == lit1[i] by {
            assert(s[o1 + i] == rendered[lit0.len() as int + body.len() + i]);
            assert(rendered[lit0.len() as int + body.len() + i] == lit1[i]);
        }
    }
    assert(spec_match_at(s, o1, lit1));
    assert(s.subrange(o2, o3) =~= digits) by {
        assert forall|i: int| 0 <= i < digits.len() implies s.subrange(o2, o3)[i]
            == digits[i] by {
            assert(s[o2 + i] == rendered[lit0.len() as int + body.len() + lit1.len() + i]);
            assert(rendered[lit0.len() as int + body.len() + lit1.len() + i] == digits[i]);
        }
    }
    assert(s[o3] == rendered[lit0.len() as int + body.len() + lit1.len() + digits.len()]);
    assert(s[o3] == ('}' as u8));
    assert(!crate::numfmt::spec_is_digit(s[o3]));
    crate::numfmt::lemma_parse_uint_of_digits(s, o2, entry.timestamp as nat);
}

/// Parsing rendered entries, terminated by the closing bracket, yields
/// the entries back.
#[verifier::rlimit(100)]
#[verifier::spinoff_prover]
proof fn lemma_parse_entries_of_render(s: Seq<u8>, pos: int, entries: Seq<DataV>, first: bool)
    requires
        0 <= pos,
        pos + spec_render_entries(entries, first).len() < s.len(),
        s.subrange(pos, pos + spec_render_entries(entries, first).len()) == spec_render_entries(
            entries,
            first,
        ),
        s[pos + spec_render_entries(entries, first).len()] == (']' as u8),
    ensures
        spec_parse_entries(s, pos, first) == Some(
            (entries, pos + spec_render_entries(entries, first).len()),
        ),
    decreases entries.len(),
{
    let rendered = spec_render_entries(entries, first);
    if entries.len() == 0 {
        assert(s[pos] == (']' as u8));
    } else {
        let sep_len: int = if first { 0 } else { 1 };
        let entry_text = spec_render_entry(entries[0]);
        let rest = spec_render_entries(entries.drop_first(), false);
        assert(rendered.len() == sep_len + entry_text.len() + rest.len());
        let start = pos + sep_len;
        let p2 = start + entry_text.len();
        assert(entry_text[0] == ('{' as u8));
        assert(s.subrange(start, p2) =~= entry_text) by {
            assert forall|i: int| 0 <= i < entry_text.len() implies s.subrange(start, p2)[i]
                == entry_text[i] by {
                assert(s[start + i] == rendered[sep_len + i]);
                assert(rendered[sep_len + i] == entry_text[i]);
            }
        }
        if first {
            assert(s[pos] == entry_text[0]);
        } else {
            assert(s[pos] == rendered[0]);
            assert(rendered[0] == (',' as u8));
        }
        lemma_parse_entry_of_render(s, start, entries[0]);
        assert(s.subrange(p2, p2 + rest.len()) =~= rest) by {
            assert forall|i: int| 0 <= i < rest.len() implies s.subrange(p2, p2 + rest.len())[i]
                == rest[i] by {
                assert(s[p2 + i] == rendered[sep_len + entry_text.len() as int + i]);
                assert(rendered[sep_len + entry_text.len() as int + i] == rest[i]);
            }
        }
        lemma_parse_entries_of_render(s, p2, entries.drop_first(), false);
        assert(seq![entries[0]] + entries.drop_first() =~= entries);
    }
}

/// The log format round-trips: parsing a rendered log yields exactly the
/// entries it was rendered from. In particular, a log built by appending
/// `k` readings to a fresh file parses back as an array of `k` entries.
pub proof fn lemma_log_round_trip(entries: Seq<DataV>)
    ensures
        spec_parse_log(spec_render_log(entries)) == Some(entries),
{
    let s = spec_render_log(entries);
    let body = spec_render_entries(entries, true);
    assert(s.len() == body.len() + 2);
    assert(s[0] == ('[' as u8));
    assert(s.subrange(1, 1 + body.len() as int) =~= body) by {
        assert forall|i: int| 0 <= i < body.len() implies s.subrange(1, 1 + body.len() as int)[i]
            == body[i] by {
            assert(s[1 + i] == body[i]);
        }
    }
    assert(s[1 + body.len() as int] == (']' as u8));
    lemma_parse_entries_of_render(s, 1, entries, true);
}

} // verus!
