//! Text and bar-chart renderings of a histogram's counters.
use vstd::prelude::*;

verus! {

/// The decimal digit `d` as a character.
pub open spec fn digit_char(d: nat) -> char {
    if d == 0 {
        '0'
    } else if d == 1 {
        '1'
    } else if d == 2 {
        '2'
    } else if d == 3 {
        '3'
    } else if d == 4 {
        '4'
    } else if d == 5 {
        '5'
    } else if d == 6 {
        '6'
    } else if d == 7 {
        '7'
    } else if d == 8 {
        '8'
    } else {
        '9'
    }
}

/// `n` written in decimal, without leading zeros.
pub open spec fn decimal(n: nat) -> Seq<char>
    decreases n,
{
    if n < 10 {
        seq![digit_char(n)]
    } else {
        decimal(n / 10).push(digit_char(n % 10))
    }
}

fn digit_str(d: u64) -> (r: &'static str)
    requires
        d < 10,
    ensures
        r@ == seq![digit_char(d as nat)],
{
    if d == 0 {
        proof { reveal_strlit("0"); }
        "0"
    } else if d == 1 {
        proof { reveal_strlit("1"); }
        "1"
    } else if d == 2 {
        proof { reveal_strlit("2"); }
        "2"
    } else if d == 3 {
        proof { reveal_strlit("3"); }
        "3"
    } else if d == 4 {
        proof { reveal_strlit("4"); }
        "4"
    } else if d == 5 {
        proof { reveal_strlit("5"); }
        "5"
    } else if d == 6 {
        proof { reveal_strlit("6"); }
        "6"
    } else if d == 7 {
        proof { reveal_strlit("7"); }
        "7"
    } else if d == 8 {
        proof { reveal_strlit("8"); }
        "8"
    } else {
        proof { reveal_strlit("9"); }
        "9"
    }
}

/// Appends `n` in decimal to `out`.
pub fn push_decimal(out: &mut String, n: u64)
    ensures
        final(out)@ == old(out)@ + decimal(n as nat),
    decreases n,
{
    if n < 10 {
        out.append(digit_str(n));
    } else {
        push_decimal(out, n / 10);
        out.append(digit_str(n % 10));
        proof {
            assert(decimal(n as nat) == decimal((n / 10) as nat).push(digit_char((n % 10) as nat)));
        }
        assert(out@ =~= old(out)@ + decimal(n as nat));
    }
}

/// `"<count> < <label> | "`: one bin with a finite upper bound.
pub open spec fn bounded_item(count: u64, label: Seq<char>) -> Seq<char> {
    decimal(count as nat) + seq![' ', '<', ' '] + label + seq![' ', '|', ' ']
}

/// `"<count> < \u{221e}"`: the unbounded last bin.
pub open spec fn unbounded_item(count: u64) -> Seq<char> {
    decimal(count as nat) + seq![' ', '<', ' ', '\u{221e}']
}

/// The first `i` bounded items, one after the other.
pub open spec fn bounded_items(counts: Seq<u64>, labels: Seq<String>, i: nat) -> Seq<char>
    decreases i,
{
    if i == 0 {
        Seq::empty()
    } else {
        bounded_items(counts, labels, (i - 1) as nat) + bounded_item(
            counts[i - 1],
            labels[i - 1]@,
        )
    }
}

/// The text of a histogram: each bounded bin with the label of its bound,
/// then the unbounded bin.
pub open spec fn text_of(counts: Seq<u64>, labels: Seq<String>) -> Seq<char> {
    bounded_items(counts, labels, labels.len()) + unbounded_item(counts[labels.len() as int])
}

/// Writes the counters with the labels of their bounds, as
/// `"<count> < <label> | "` for each bounded bin and `"<count> < \u{221e}"`
/// for the last one.
pub fn counts_text(counts: &Vec<u64>, labels: &Vec<String>) -> (r: String)
    requires
        counts@.len() == labels@.len() + 1,
    ensures
        r@ == text_of(counts@, labels@),
{
    let mut r = String::new();
    let mut i: usize = 0;
    while i < labels.len()
        invariant
            0 <= i <= labels@.len(),
            counts@.len() == labels@.len() + 1,
            r@ == bounded_items(counts@, labels@, i as nat),
        decreases labels@.len() - i,
    {
        let ghost before = r@;
        push_decimal(&mut r, counts[i]);
        let ghost s1 = r@;
        proof {
            reveal_strlit(" < ");
            reveal_strlit(" | ");
        }
        r.append(" < ");
        assert(r@ =~= s1 + seq![' ', '<', ' ']);
        let ghost s2 = r@;
        r.append(labels[i].as_str());
        assert(r@ =~= s2 + labels@[i as int]@);
        let ghost s3 = r@;
        r.append(" | ");
        assert(r@ =~= s3 + seq![' ', '|', ' ']);
        assert(r@ =~= before + bounded_item(counts@[i as int], labels@[i as int]@));
        i = i + 1;
    }
    let ghost before = r@;
    push_decimal(&mut r, counts[i]);
    proof {
        reveal_strlit(" < \u{221e}");
    }
    r.append(" < \u{221e}");
    assert(r@ =~= before + unbounded_item(counts@[i as int]));
    r
}

/// The largest counter, or zero when there is none.
pub open spec fn max_count(s: Seq<u64>) -> u64
    decreases s.len(),
{
    if s.len() == 0 {
        0
    } else if s.last() > max_count(s.drop_last()) {
        s.last()
    } else {
        max_count(s.drop_last())
    }
}

/// The cell of a bar chart for a counter `c` at row `level` (zero at the
/// bottom), the chart being `height` rows high and scaled so that the
/// largest counter `top` reaches its top: `'#'` where `c * height / top`
/// reaches the level, else a blank. With no sample at all every cell is blank.
pub open spec fn bar_cell(c: u64, top: u64, height: nat, level: nat) -> char {
    if top > 0 && c * height >= level * top {
        '#'
    } else {
        ' '
    }
}

/// The row of a bar chart at `level`, one cell per counter.
pub open spec fn chart_row(counts: Seq<u64>, height: nat, level: nat) -> Seq<char> {
    Seq::new(counts.len(), |j: int| bar_cell(counts[j], max_count(counts), height, level))
}

fn max_of(counts: &Vec<u64>) -> (m: u64)
    ensures
        m == max_count(counts@),
{
    let mut m: u64 = 0;
    let mut i: usize = 0;
    while i < counts.len()
        invariant
            0 <= i <= counts@.len(),
            m == max_count(counts@.subrange(0, i as int)),
        decreases counts@.len() - i,
    {
        assert(counts@.subrange(0, i + 1).drop_last() =~= counts@.subrange(0, i as int));
        if counts[i] > m {
            m = counts[i];
        }
        i = i + 1;
    }
    assert(counts@.subrange(0, counts@.len() as int) =~= counts@);
    m
}

/// A vertical bar chart of the counters, `height` rows from the top down,
/// one column per counter.
pub fn bar_chart(counts: &Vec<u64>, height: u64) -> (rows: Vec<String>)
    ensures
        rows@.len() == height,
        forall|k: int|
            0 <= k < height ==> #[trigger] rows@[k]@ == chart_row(
                counts@,
                height as nat,
                (height - 1 - k) as nat,
            ),
{
    let top = max_of(counts);
    let mut rows: Vec<String> = Vec::new();
    let mut k: u64 = 0;
    while k < height
        invariant
            0 <= k <= height,
            top == max_count(counts@),
            rows@.len() == k,
            forall|q: int|
                0 <= q < k ==> #[trigger] rows@[q]@ == chart_row(
                    counts@,
                    height as nat,
                    (height - 1 - q) as nat,
                ),
        decreases height - k,
    {
        let level: u64 = height - 1 - k;
        let mut row = String::new();
        let mut j: usize = 0;
        while j < counts.len()
            invariant
                0 <= j <= counts@.len(),
                top == max_count(counts@),
                level == height - 1 - k,
                row@ =~= chart_row(counts@, height as nat, level as nat).subrange(0, j as int),
            decreases counts@.len() - j,
        {
            let c = counts[j];
            proof {
                reveal_strlit("#");
                reveal_strlit(" ");
            }
            proof {
                assert((c as u128) * (height as u128) <= 0xffff_ffff_ffff_ffffu128
                    * 0xffff_ffff_ffff_ffffu128) by (nonlinear_arith)
                    requires
                        c <= 0xffff_ffff_ffff_ffffu64,
                        height <= 0xffff_ffff_ffff_ffffu64,
                ;
                assert((level as u128) * (top as u128) <= 0xffff_ffff_ffff_ffffu128
                    * 0xffff_ffff_ffff_ffffu128) by (nonlinear_arith)
                    requires
                        level <= 0xffff_ffff_ffff_ffffu64,
                        top <= 0xffff_ffff_ffff_ffffu64,
                ;
            }
            assert(chart_row(counts@, height as nat, level as nat)[j as int] == bar_cell(
                c,
                top,
                height as nat,
                level as nat,
            ));
            if top > 0 && (c as u128) * (height as u128) >= (level as u128) * (top as u128) {
                row.append("#");
            } else {
                row.append(" ");
            }
            assert(row@ =~= chart_row(counts@, height as nat, level as nat).subrange(0, j + 1));
            j = j + 1;
        }
        assert(row@ =~= chart_row(counts@, height as nat, level as nat));
        rows.push(row);
        k = k + 1;
    }
    rows
}

} // verus!
