//! Assembling the delimited text output from formatted coordinate fields.
//!
//! The file starts with the fixed header line `x,y,z`; each following line
//! holds one point's three formatted coordinates, comma-separated and closed
//! by a newline. Formatting a coordinate into its decimal digits is the
//! caller's side of the boundary; this module fixes the layout of the lines.

use vstd::prelude::*;

verus! {

/// The header line of the point file: the bytes of `x,y,z` and a newline.
pub open spec fn csv_header() -> Seq<u8> {
    seq![120u8, 44u8, 121u8, 44u8, 122u8, 10u8]
}

/// One data line: the three coordinate fields separated by commas, closed by
/// a newline.
pub open spec fn csv_row(x: Seq<u8>, y: Seq<u8>, z: Seq<u8>) -> Seq<u8> {
    x + seq![44u8] + y + seq![44u8] + z + seq![10u8]
}

/// The data lines of `rows`, in order.
pub open spec fn csv_rows(rows: Seq<(Seq<u8>, Seq<u8>, Seq<u8>)>) -> Seq<u8>
    decreases rows.len(),
{
    if rows.len() == 0 {
        Seq::<u8>::empty()
    } else {
        csv_rows(rows.drop_last()) + csv_row(
            rows.last().0,
            rows.last().1,
            rows.last().2,
        )
    }
}

/// The field contents of formatted rows.
pub open spec fn rows_view(rows: Seq<(Vec<u8>, Vec<u8>, Vec<u8>)>) -> Seq<
    (Seq<u8>, Seq<u8>, Seq<u8>),
> {
    rows.map_values(|p: (Vec<u8>, Vec<u8>, Vec<u8>)| (p.0@, p.1@, p.2@))
}

/// Number of occurrences of the byte `b` in `s`.
pub open spec fn count_byte(s: Seq<u8>, b: u8) -> int
    decreases s.len(),
{
    if s.len() == 0 {
        0
    } else {
        count_byte(s.drop_last(), b) + if s.last() == b {
            1int
        } else {
            0int
        }
    }
}

proof fn lemma_count_byte_add(s1: Seq<u8>, s2: Seq<u8>, b: u8)
    ensures
        count_byte(s1 + s2, b) == count_byte(s1, b) + count_byte(s2, b),
    decreases s2.len(),
{
    if s2.len() == 0 {
        assert(s1 + s2 =~= s1);
    } else {
        assert((s1 + s2).drop_last() =~= s1 + s2.drop_last());
        lemma_count_byte_add(s1, s2.drop_last(), b);
    }
}

proof fn lemma_count_byte_absent(s: Seq<u8>, b: u8)
    requires
        forall|i: int| 0 <= i < s.len() ==> s[i] != b,
    ensures
        count_byte(s, b) == 0,
    decreases s.len(),
{
    if s.len() > 0 {
        lemma_count_byte_absent(s.drop_last(), b);
    }
}

proof fn lemma_count_byte_single(b1: u8, b: u8)
    ensures
        count_byte(seq![b1], b) == if b1 == b {
            1int
        } else {
            0int
        },
{
    assert(count_byte(Seq::<u8>::empty(), b) == 0);
    assert(seq![b1].drop_last() =~= Seq::<u8>::empty());
    assert(seq![b1].last() == b1);
}

/// One data line holds exactly one newline, the one that closes it, as long
/// as no coordinate field holds a newline itself.
proof fn lemma_csv_row_newlines(x: Seq<u8>, y: Seq<u8>, z: Seq<u8>)
    requires
        count_byte(x, 10u8) == 0,
        count_byte(y, 10u8) == 0,
        count_byte(z, 10u8) == 0,
    ensures
        count_byte(csv_row(x, y, z), 10u8) == 1,
{
    lemma_count_byte_single(44u8, 10u8);
    lemma_count_byte_single(10u8, 10u8);
    lemma_count_byte_add(x, seq![44u8], 10u8);
    lemma_count_byte_add(x + seq![44u8], y, 10u8);
    lemma_count_byte_add(x + seq![44u8] + y, seq![44u8], 10u8);
    lemma_count_byte_add(x + seq![44u8] + y + seq![44u8], z, 10u8);
    lemma_count_byte_add(x + seq![44u8] + y + seq![44u8] + z, seq![10u8], 10u8);
}

/// The serialized file has exactly one line per point and one for the
/// header: where no coordinate field holds a newline byte, the output holds
/// exactly `rows.len() + 1` newlines, one closing each line.
pub proof fn lemma_csv_line_count(rows: Seq<(Seq<u8>, Seq<u8>, Seq<u8>)>)
    requires
        forall|i: int|
            0 <= i < rows.len() ==> {
                &&& count_byte((#[trigger] rows[i]).0, 10u8) == 0
                &&& count_byte(rows[i].1, 10u8) == 0
                &&& count_byte(rows[i].2, 10u8) == 0
            },
    ensures
        count_byte(csv_header() + csv_rows(rows), 10u8) == rows.len() + 1,
{
    assert(count_byte(csv_header(), 10u8) == 1) by {
        assert(csv_header() =~= seq![120u8, 44u8, 121u8, 44u8, 122u8] + seq![10u8]);
        lemma_count_byte_absent(seq![120u8, 44u8, 121u8, 44u8, 122u8], 10u8);
        lemma_count_byte_single(10u8, 10u8);
        lemma_count_byte_add(seq![120u8, 44u8, 121u8, 44u8, 122u8], seq![10u8], 10u8);
    }
    lemma_csv_rows_newlines(rows);
    lemma_count_byte_add(csv_header(), csv_rows(rows), 10u8);
}

proof fn lemma_csv_rows_newlines(rows: Seq<(Seq<u8>, Seq<u8>, Seq<u8>)>)
    requires
        forall|i: int|
            0 <= i < rows.len() ==> {
                &&& count_byte((#[trigger] rows[i]).0, 10u8) == 0
                &&& count_byte(rows[i].1, 10u8) == 0
                &&& count_byte(rows[i].2, 10u8) == 0
            },
    ensures
        count_byte(csv_rows(rows), 10u8) == rows.len(),
    decreases rows.len(),
{
    if rows.len() == 0 {
    } else {
        lemma_csv_rows_newlines(rows.drop_last());
        lemma_csv_row_newlines(rows.last().0, rows.last().1, rows.last().2);
        lemma_count_byte_add(
            csv_rows(rows.drop_last()),
            csv_row(rows.last().0, rows.last().1, rows.last().2),
            10u8,
        );
    }
}

fn push_all(out: &mut Vec<u8>, bytes: &Vec<u8>)
    ensures
        final(out)@ == old(out)@ + bytes@,
{
    let mut i: usize = 0;
    while i < bytes.len()
        invariant
            i <= bytes@.len(),
            out@ == old(out)@ + bytes@.take(i as int),
        decreases bytes@.len() - i,
    {
        out.push(bytes[i]);
        proof {
            assert(old(out)@ + bytes@.take(i as int) + seq![bytes@[i as int]] =~= old(out)@
                + bytes@.take(i as int + 1));
        }
        i = i + 1;
    }
    proof {
        assert(bytes@.take(bytes@.len() as int) =~= bytes@);
    }
}

/// The serialized point file: the header line `x,y,z`, then one line per
/// row holding its three fields comma-separated, in row order. The first
/// line of the output is exactly the header: byte 5 is the first newline.
pub fn render_csv(rows: &Vec<(Vec<u8>, Vec<u8>, Vec<u8>)>) -> (out: Vec<u8>)
    ensures
        out@ == csv_header() + csv_rows(rows_view(rows@)),
        out@.len() >= 6,
        out@.subrange(0, 6) == csv_header(),
        out@[5] == 10u8,
        forall|k: int| 0 <= k < 5 ==> out@[k] != 10u8,
{
    let mut out: Vec<u8> = Vec::new();
    out.push(120u8);
    out.push(44u8);
    out.push(121u8);
    out.push(44u8);
    out.push(122u8);
    out.push(10u8);
    proof {
        assert(out@ =~= csv_header());
        assert(out@ =~= csv_header() + csv_rows(rows_view(rows@).take(0)));
    }
    let mut i: usize = 0;
    while i < rows.len()
        invariant
            i <= rows@.len(),
            out@ == csv_header() + csv_rows(rows_view(rows@).take(i as int)),
        decreases rows@.len() - i,
    {
        let row = &rows[i];
        push_all(&mut out, &row.0);
        out.push(44u8);
        push_all(&mut out, &row.1);
        out.push(44u8);
        push_all(&mut out, &row.2);
        out.push(10u8);
        proof {
            let rv = rows_view(rows@);
            assert(rv.take(i as int + 1).drop_last() =~= rv.take(i as int));
            assert(rv.take(i as int + 1).last() == rv[i as int]);
            assert(out@ =~= csv_header() + csv_rows(rv.take(i as int + 1)));
        }
        i = i + 1;
    }
    proof {
        assert(rows_view(rows@).take(rows@.len() as int) =~= rows_view(rows@));
        assert(out@.subrange(0, 6) =~= csv_header());
    }
    out
}

} // verus!
