use vstd::prelude::*;
use vstd::string::StringExecFns;

use crate::events::Event;

verus! {

pub open spec fn digit_char(d: nat) -> char {
    if d == 0 {
        '0'
    } else if d == 1 {
        '1'
    } else if d == 2 {
        '2'
    } else if d == 3 {
        '3'
    } else if d == 4 {
        '4'
    } else if d == 5 {
        '5'
    } else if d == 6 {
        '6'
    } else if d == 7 {
        '7'
    } else if d == 8 {
        '8'
    } else {
        '9'
    }
}

/// The decimal digits of `n`, most significant first, without leading zeros.
pub open spec fn decimal(n: nat) -> Seq<char>
    decreases n,
{
    if n < 10 {
        seq![digit_char(n)]
    } else {
        decimal(n / 10).push(digit_char(n % 10))
    }
}

/// Relies on `itoa::Buffer::format`: the decimal representation of an
/// unsigned integer.
#[verifier::external_body]
pub(crate) fn decimal_string(n: usize) -> (r: String)
    ensures
        r@ == decimal(n as nat),
{
    let mut buffer = itoa::Buffer::new();
    buffer.format(n).to_string()
}

/// One entry of the table: `id:start-end`.
pub open spec fn id_lines_entry(id: usize, start: usize, end: usize) -> Seq<char> {
    decimal(id as nat) + ":"@ + decimal(start as nat) + "-"@ + decimal(end as nat)
}

/// The entries of the thematic breaks and the closed blocks, in order.
pub open spec fn table_entries(evs: Seq<Event>) -> Seq<Seq<char>>
    decreases evs.len(),
{
    if evs.len() == 0 {
        Seq::empty()
    } else {
        let rest = table_entries(evs.drop_last());
        match evs.last() {
            Event::ThematicBreak(d) => rest.push(id_lines_entry(d.id.value, d.line_number, d.line_number)),
            Event::ExitBlock(d) => rest.push(id_lines_entry(d.id.value, d.start_line_number, d.end_line_number)),
            _ => rest,
        }
    }
}

/// The parts one after another, `sep` between each two.
pub open spec fn joined(parts: Seq<Seq<char>>, sep: Seq<char>) -> Seq<char>
    decreases parts.len(),
{
    if parts.len() == 0 {
        Seq::empty()
    } else if parts.len() == 1 {
        parts[0]
    } else {
        joined(parts.drop_last(), sep) + sep + parts.last()
    }
}

fn write_id_and_line_range(target: &mut String, id: usize, range_start: usize, range_end: usize)
    ensures
        final(target)@ == old(target)@ + id_lines_entry(id, range_start, range_end),
{
    let a = decimal_string(id);
    let b = decimal_string(range_start);
    let c = decimal_string(range_end);
    target.append(a.as_str());
    target.append(":");
    target.append(b.as_str());
    target.append("-");
    target.append(c.as_str());
    assert(target@ =~= old(target)@ + id_lines_entry(id, range_start, range_end));
}

/// The table from block identifiers to line ranges: `id:start-end` for each
/// thematic break and each closed block, in order, separated by `;`.
pub fn create_block_id_to_lines_map(all_events: &[Event]) -> (r: String)
    ensures
        r@ == joined(table_entries(all_events@), ";"@),
{
    let mut result = String::new();
    let mut has_entries = false;
    let n = all_events.len();
    let mut i: usize = 0;
    proof {
        assert(all_events@.take(0) =~= Seq::<Event>::empty());
    }
    while i < n
        invariant
            i <= n,
            n == all_events@.len(),
            result@ == joined(table_entries(all_events@.take(i as int)), ";"@),
            has_entries == (table_entries(all_events@.take(i as int)).len() > 0),
        decreases n - i,
    {
        let ghost before = table_entries(all_events@.take(i as int));
        proof {
            assert(all_events@.take(i + 1).drop_last() =~= all_events@.take(i as int));
        }
        let (id, start, end) = match &all_events[i] {
            Event::ThematicBreak(data) => (data.id.value(), data.line_number, data.line_number),
            Event::ExitBlock(data) => (data.id.value(), data.start_line_number, data.end_line_number),
            _ => {
                i += 1;
                continue;
            },
        };
        if has_entries {
            result.append(";");
        }
        write_id_and_line_range(&mut result, id, start, end);
        has_entries = true;
        i += 1;
        proof {
            let after = table_entries(all_events@.take(i as int));
            assert(after == before.push(id_lines_entry(id, start, end)));
            assert(after.drop_last() =~= before);
            if before.len() == 0 {
                assert(joined(before, ";"@) =~= Seq::<char>::empty());
                assert(result@ =~= joined(after, ";"@));
            } else {
                assert(result@ =~= joined(after, ";"@));
            }
        }
    }
    proof {
        assert(all_events@.take(n as int) =~= all_events@);
    }
    result
}

} // verus!
