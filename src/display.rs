//! Text rendering: right-aligned fields of equal width, one line per row.
use vstd::prelude::*;
use vstd::string::StrSliceExecFns;
use vstd::string::StringExecFns;
use crate::numerics::Numeric;

verus! {

/// `s` preceded by spaces up to `w` characters.
pub open spec fn padded(s: Seq<char>, w: int) -> Seq<char> {
    Seq::new(if w > s.len() { (w - s.len()) as nat } else { 0 }, |_k: int| ' ') + s
}

/// Length of the longest of `cells`, zero if there is none.
pub open spec fn widest(cells: Seq<Seq<char>>) -> nat
    decreases cells.len(),
{
    if cells.len() == 0 {
        0
    } else {
        let w = widest(cells.drop_last());
        if cells.last().len() > w {
            cells.last().len()
        } else {
            w
        }
    }
}

/// The cells padded to width `w`, `n` to a line, lines joined by `'\n'`.
pub open spec fn laid_out(cells: Seq<Seq<char>>, n: int, w: int) -> Seq<char>
    decreases cells.len(),
{
    if cells.len() == 0 {
        seq![]
    } else {
        let k = cells.len() - 1;
        let sep: Seq<char> = if k % n == 0 && k != 0 {
            seq!['\n']
        } else {
            seq![]
        };
        laid_out(cells.drop_last(), n, w) + sep + padded(cells.last(), w)
    }
}

/// The characters of each string.
pub open spec fn texts(cells: Seq<String>) -> Seq<Seq<char>> {
    cells.map_values(|s: String| s@)
}

/// The characters of the decimal digit `d`.
pub open spec fn digit(d: int) -> char {
    if d == 0 {
        '0'
    } else if d == 1 {
        '1'
    } else if d == 2 {
        '2'
    } else if d == 3 {
        '3'
    } else if d == 4 {
        '4'
    } else if d == 5 {
        '5'
    } else if d == 6 {
        '6'
    } else if d == 7 {
        '7'
    } else if d == 8 {
        '8'
    } else {
        '9'
    }
}

/// Decimal digits of `v`, most significant first, without leading zeros.
pub open spec fn digits(v: nat) -> Seq<char>
    decreases v,
{
    if v < 10 {
        seq![digit(v as int)]
    } else {
        digits(v / 10).push(digit((v % 10) as int))
    }
}

/// Decimal text of `v`: a minus sign before the digits of a negative value.
pub open spec fn decimal(v: int) -> Seq<char> {
    if v < 0 {
        seq!['-'] + digits((-v) as nat)
    } else {
        digits(v as nat)
    }
}

fn digit_str(d: u128) -> (r: &'static str)
    requires
        d < 10,
    ensures
        r@ == seq![digit(d as int)],
{
    proof {
        reveal_strlit("0");
        reveal_strlit("1");
        reveal_strlit("2");
        reveal_strlit("3");
        reveal_strlit("4");
        reveal_strlit("5");
        reveal_strlit("6");
        reveal_strlit("7");
        reveal_strlit("8");
        reveal_strlit("9");
    }
    if d == 0 {
        "0"
    } else if d == 1 {
        "1"
    } else if d == 2 {
        "2"
    } else if d == 3 {
        "3"
    } else if d == 4 {
        "4"
    } else if d == 5 {
        "5"
    } else if d == 6 {
        "6"
    } else if d == 7 {
        "7"
    } else if d == 8 {
        "8"
    } else {
        "9"
    }
}

fn push_digits(out: &mut String, v: u128)
    ensures
        final(out)@ == old(out)@ + digits(v as nat),
    decreases v,
{
    if v >= 10 {
        push_digits(out, v / 10);
    }
    out.append(digit_str(v % 10));
    proof {
        if v >= 10 {
            assert(digits(v as nat) == digits((v / 10) as nat).push(digit((v % 10) as int)));
        }
    }
}

/// Decimal text of an unsigned value.
pub fn unsigned_decimal(v: u128) -> (r: String)
    ensures
        r@ == decimal(v as int),
{
    let mut out = String::new();
    push_digits(&mut out, v);
    out
}

/// Decimal text of a signed value.
pub fn signed_decimal(v: i128) -> (r: String)
    ensures
        r@ == decimal(v as int),
{
    let mut out = String::new();
    if v < 0 {
        proof {
            reveal_strlit("-");
        }
        out.append("-");
        let magnitude = (-(v + 1)) as u128 + 1;
        push_digits(&mut out, magnitude);
    } else {
        push_digits(&mut out, v as u128);
    }
    out
}

fn push_spaces(out: &mut String, count: usize)
    ensures
        final(out)@ == old(out)@ + Seq::new(count as nat, |_k: int| ' '),
{
    let mut p: usize = 0;
    while p < count
        invariant
            p <= count,
            out@ == old(out)@ + Seq::new(p as nat, |_k: int| ' '),
        decreases count - p,
    {
        proof {
            reveal_strlit(" ");
        }
        out.append(" ");
        p += 1;
        assert(out@ =~= old(out)@ + Seq::new(p as nat, |_k: int| ' '));
    }
}

/// Lays `cells` out `n` to a line, each right-aligned in a field two
/// characters wider than the longest cell.
pub fn layout(cells: &Vec<String>, n: usize) -> (r: String)
    requires
        cells@.len() > 0 ==> n > 0,
    ensures
        r@ == laid_out(texts(cells@), n as int, (widest(texts(cells@)) + 2) as int),
{
    let ghost all = texts(cells@);
    let mut w: usize = 0;
    let mut k: usize = 0;
    while k < cells.len()
        invariant
            all == texts(cells@),
            k <= cells@.len(),
            w == widest(all.subrange(0, k as int)),
        decreases cells@.len() - k,
    {
        let len = cells[k].as_str().unicode_len();
        proof {
            assert(all.subrange(0, k + 1).drop_last() =~= all.subrange(0, k as int));
        }
        if len > w {
            w = len;
        }
        k += 1;
    }
    assert(all.subrange(0, cells@.len() as int) =~= all);
    let mut out = String::new();
    proof {
        lemma_widest(all);
    }
    let mut k: usize = 0;
    while k < cells.len()
        invariant
            all == texts(cells@),
            cells@.len() > 0 ==> n > 0,
            k <= cells@.len(),
            w == widest(all),
            out@ == laid_out(all.subrange(0, k as int), n as int, (w + 2) as int),
            forall|i: int| 0 <= i < all.len() ==> (#[trigger] all[i]).len() <= w,
        decreases cells@.len() - k,
    {
        proof {
            reveal_strlit("\n");
            reveal_strlit("  ");
        }
        let ghost before = out@;
        if k % n == 0 && k != 0 {
            out.append("\n");
        }
        let ghost with_sep = out@;
        let cell = cells[k].as_str();
        let len = cell.unicode_len();
        assert(all[k as int] == cells@[k as int]@);
        out.append("  ");
        push_spaces(&mut out, w - len);
        out.append(cell);
        proof {
            let sub = all.subrange(0, k + 1);
            assert(sub.drop_last() =~= all.subrange(0, k as int));
            assert(padded(all[k as int], (w + 2) as int) =~= seq![' ', ' '] + Seq::new((w - len) as nat, |_k: int| ' ') + cell@);
            assert(out@ =~= laid_out(sub, n as int, (w + 2) as int));
        }
        k += 1;
    }
    assert(all.subrange(0, cells@.len() as int) =~= all);
    out
}

/// Decimal text of each of `s`.
pub open spec fn decimals<T: Numeric>(s: Seq<T>) -> Seq<Seq<char>> {
    s.map_values(|x: T| decimal(x.val()))
}

/// Decimal text of each element, in order.
pub fn decimal_cells<T: Numeric>(s: &[T]) -> (r: Vec<String>)
    ensures
        r@.len() == s@.len(),
        texts(r@) == decimals(s@),
{
    let mut out: Vec<String> = Vec::new();
    let mut k: usize = 0;
    while k < s.len()
        invariant
            k <= s@.len(),
            out@.len() == k,
            forall|i: int| 0 <= i < k ==> (#[trigger] out@[i])@ == decimal(s@[i].val()),
        decreases s@.len() - k,
    {
        out.push(s[k].to_decimal());
        k += 1;
    }
    assert(texts(out@) =~= decimals(s@));
    out
}

/// Every cell is at most as long as the longest.
proof fn lemma_widest(cells: Seq<Seq<char>>)
    ensures
        forall|i: int| 0 <= i < cells.len() ==> (#[trigger] cells[i]).len() <= widest(cells),
    decreases cells.len(),
{
    if cells.len() > 0 {
        let d = cells.drop_last();
        lemma_widest(d);
        assert forall|i: int| 0 <= i < cells.len() implies (#[trigger] cells[i]).len() <= widest(cells) by {
            if i < cells.len() - 1 {
                assert(cells[i] == d[i]);
            }
        }
    }
}

} // verus!
