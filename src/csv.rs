use vstd::prelude::*;
use crate::ledger::Row;
use crate::text::{decimal, push_decimal, push_seconds, seconds_text};

verus! {

pub open spec fn header() -> Seq<char> {
    "duration_from_start_seconds,activity_id,is_active"@
}

/// One data line: seconds since the first event, activity id, 0 or 1.
pub open spec fn row_text(r: Row) -> Seq<char> {
    seconds_text(r.millis_from_start as nat) + seq![','] + decimal(r.activity as nat) + seq![',']
        + decimal(r.is_active as nat)
}

/// The header, then one line per row, joined by newlines, with no newline at
/// the end.
pub open spec fn csv_text(rows: Seq<Row>) -> Seq<char>
    decreases rows.len(),
{
    if rows.len() == 0 {
        header()
    } else {
        csv_text(rows.drop_last()) + seq!['\n'] + row_text(rows.last())
    }
}

/// The comma-separated text of `rows` under its header line.
pub fn render(rows: &Vec<Row>) -> (r: String)
    ensures
        r@ == csv_text(rows@),
{
    let mut s = String::from_str("duration_from_start_seconds,activity_id,is_active");
    assert(rows@.take(0) =~= Seq::<Row>::empty());
    let mut i: usize = 0;
    while i < rows.len()
        invariant
            i <= rows.len(),
            s@ == csv_text(rows@.take(i as int)),
        decreases rows.len() - i,
    {
        let row = rows[i];
        let ghost before = s@;
        proof {
            reveal_strlit("\n");
            reveal_strlit(",");
        }
        s.append("\n");
        push_seconds(&mut s, row.millis_from_start);
        s.append(",");
        push_decimal(&mut s, row.activity as u64);
        s.append(",");
        push_decimal(&mut s, row.is_active as u64);
        proof {
            let next = rows@.take(i as int + 1);
            assert(next.drop_last() =~= rows@.take(i as int));
            assert(next.last() == row);
            assert(s@ =~= before + seq!['\n'] + row_text(row));
        }
        i = i + 1;
    }
    assert(rows@.take(rows@.len() as int) =~= rows@);
    s
}

} // verus!
