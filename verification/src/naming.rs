//! Tile naming: the per-level directory name and the per-tile file name,
//! together with a decoder showing that a name determines its level, row
//! and column again.

use vstd::prelude::*;

verus! {

/// The decimal digit character for a value below ten.
pub open spec fn digit_char(d: nat) -> char {
    if d == 0 {
        '0'
    } else if d == 1 {
        '1'
    } else if d == 2 {
        '2'
    } else if d == 3 {
        '3'
    } else if d == 4 {
        '4'
    } else if d == 5 {
        '5'
    } else if d == 6 {
        '6'
    } else if d == 7 {
        '7'
    } else if d == 8 {
        '8'
    } else {
        '9'
    }
}

/// Whether a character is a decimal digit.
pub open spec fn is_digit_char(c: char) -> bool {
    c == '0' || c == '1' || c == '2' || c == '3' || c == '4' || c == '5' || c == '6' || c == '7'
        || c == '8' || c == '9'
}

/// The value of a decimal digit character.
pub open spec fn digit_val(c: char) -> nat {
    if c == '0' {
        0
    } else if c == '1' {
        1
    } else if c == '2' {
        2
    } else if c == '3' {
        3
    } else if c == '4' {
        4
    } else if c == '5' {
        5
    } else if c == '6' {
        6
    } else if c == '7' {
        7
    } else if c == '8' {
        8
    } else {
        9
    }
}

/// The usual decimal rendering of `n`, most significant digit first, with
/// no leading zeros (a lone zero for `n == 0`).
pub open spec fn spec_digits(n: nat) -> Seq<char>
    decreases n,
{
    if n < 10 {
        seq![digit_char(n)]
    } else {
        spec_digits(n / 10).push(digit_char(n % 10))
    }
}

/// Every character of the sequence is a decimal digit.
pub open spec fn all_digits(s: Seq<char>) -> bool {
    forall|i: int| 0 <= i < s.len() ==> is_digit_char(#[trigger] s[i])
}

/// The number a digit string denotes.
pub open spec fn val_of_digits(s: Seq<char>) -> nat
    decreases s.len(),
{
    if s.len() == 0 {
        0
    } else {
        val_of_digits(s.drop_last()) * 10 + digit_val(s.last())
    }
}

/// Reading the decimal rendering of `n` back gives `n`: the digits are all
/// digit characters, there is at least one, and their value is `n`.
pub proof fn lemma_val_of_spec_digits(n: nat)
    ensures
        val_of_digits(spec_digits(n)) == n,
        all_digits(spec_digits(n)),
        spec_digits(n).len() >= 1,
    decreases n,
{
    if n < 10 {
        let s = spec_digits(n);
        assert(s.drop_last() =~= Seq::<char>::empty());
        assert(val_of_digits(Seq::<char>::empty()) == 0);
        assert(s.last() == digit_char(n));
        assert(digit_val(digit_char(n)) == n);
        assert(val_of_digits(s) == val_of_digits(s.drop_last()) * 10 + digit_val(s.last()));
    } else {
        lemma_val_of_spec_digits(n / 10);
        let s = spec_digits(n / 10);
        let c = digit_char(n % 10);
        assert(s.push(c).drop_last() =~= s);
        assert(s.push(c).last() == c);
        assert(digit_val(digit_char(n % 10)) == n % 10);
        assert(val_of_digits(s.push(c)) == val_of_digits(s) * 10 + digit_val(c));
        assert(val_of_digits(spec_digits(n)) == (n / 10) * 10 + n % 10);
        vstd::arithmetic::div_mod::lemma_fundamental_div_mod(n as int, 10);
        assert(forall|i: int|
            0 <= i < s.push(c).len() ==> is_digit_char(#[trigger] s.push(c)[i]));
    }
}

/// The index of the first occurrence of `c` in `s`, or `-1` when absent.
pub open spec fn first_index_of(s: Seq<char>, c: char) -> int
    decreases s.len(),
{
    if s.len() == 0 {
        -1
    } else if s[0] == c {
        0
    } else {
        let r = first_index_of(s.subrange(1, s.len() as int), c);
        if r < 0 {
            -1
        } else {
            1 + r
        }
    }
}

/// In `a + [c] + b` with no `c` inside `a`, the first `c` sits right after
/// `a`.
pub proof fn lemma_first_index_after(a: Seq<char>, b: Seq<char>, c: char)
    requires
        forall|i: int| 0 <= i < a.len() ==> (#[trigger] a[i]) != c,
    ensures
        first_index_of(a + seq![c] + b, c) == a.len(),
    decreases a.len(),
{
    let s = a + seq![c] + b;
    if a.len() == 0 {
        assert(s[0] == c);
    } else {
        assert(s[0] == a[0]);
        let a2 = a.subrange(1, a.len() as int);
        lemma_first_index_after(a2, b, c);
        assert(s.subrange(1, s.len() as int) =~= a2 + seq![c] + b);
    }
}

/// The extension the session's format flag selects.
pub open spec fn ext_chars(png: bool) -> Seq<char> {
    if png {
        seq!['p', 'n', 'g']
    } else {
        seq!['j', 'p', 'g']
    }
}

/// The file name of the tile at `(row, col)`: the naming prefix, the row,
/// an underscore, the column, a dot and the format's extension.
pub open spec fn spec_tile_name(prefix: Seq<char>, row: nat, col: nat, ext: Seq<char>) -> Seq<
    char,
> {
    prefix + spec_digits(row) + seq!['_'] + spec_digits(col) + seq!['.'] + ext
}

/// Decodes a level directory name back to the level number.
pub open spec fn spec_parse_level(s: Seq<char>) -> Option<nat> {
    if s.len() >= 1 && all_digits(s) {
        Some(val_of_digits(s))
    } else {
        None
    }
}

/// Decodes a tile file name written with the given prefix and format flag
/// back to its `(row, col)` pair.
pub open spec fn spec_parse_tile_name(s: Seq<char>, prefix: Seq<char>, png: bool) -> Option<
    (nat, nat),
> {
    if s.len() < prefix.len() || s.subrange(0, prefix.len() as int) != prefix {
        None
    } else {
        let rest = s.subrange(prefix.len() as int, s.len() as int);
        let u = first_index_of(rest, '_');
        if u < 0 {
            None
        } else {
            let row_s = rest.subrange(0, u);
            let after = rest.subrange(u + 1, rest.len() as int);
            let d = first_index_of(after, '.');
            if d < 0 {
                None
            } else {
                let col_s = after.subrange(0, d);
                let tail = after.subrange(d + 1, after.len() as int);
                if row_s.len() >= 1 && col_s.len() >= 1 && all_digits(row_s) && all_digits(col_s)
                    && tail == ext_chars(png) {
                    Some((val_of_digits(row_s), val_of_digits(col_s)))
                } else {
                    None
                }
            }
        }
    }
}

/// Naming round-trip: the directory name written for a level decodes back
/// to that level, and the file name written for a tile decodes, under the
/// same prefix and format flag, back to the same row and column.
pub proof fn lemma_tile_name_round_trip(
    prefix: Seq<char>,
    level: nat,
    row: nat,
    col: nat,
    png: bool,
)
    ensures
        spec_parse_level(spec_digits(level)) == Some(level),
        spec_parse_tile_name(spec_tile_name(prefix, row, col, ext_chars(png)), prefix, png)
            == Some((row, col)),
{
    lemma_val_of_spec_digits(level);
    lemma_val_of_spec_digits(row);
    lemma_val_of_spec_digits(col);
    let dr = spec_digits(row);
    let dc = spec_digits(col);
    let ext = ext_chars(png);
    let s = spec_tile_name(prefix, row, col, ext);
    assert(s.subrange(0, prefix.len() as int) =~= prefix);
    let rest = s.subrange(prefix.len() as int, s.len() as int);
    assert(rest =~= dr + seq!['_'] + (dc + seq!['.'] + ext));
    assert(forall|i: int| 0 <= i < dr.len() ==> (#[trigger] dr[i]) != '_');
    lemma_first_index_after(dr, dc + seq!['.'] + ext, '_');
    let u = first_index_of(rest, '_');
    assert(u == dr.len());
    assert(rest.subrange(0, u) =~= dr);
    let after = rest.subrange(u + 1, rest.len() as int);
    assert(after =~= dc + seq!['.'] + ext);
    assert(forall|i: int| 0 <= i < dc.len() ==> (#[trigger] dc[i]) != '.');
    lemma_first_index_after(dc, ext, '.');
    assert(first_index_of(dc + seq!['.'] + ext, '.') == dc.len());
    let d = first_index_of(after, '.');
    assert(d == dc.len());
    assert(after.subrange(0, d) =~= dc);
    assert(after.subrange(d + 1, after.len() as int) =~= ext);
}

/// The decimal digits of a value below ten.
fn digit_str(d: u32) -> (s: &'static str)
    requires
        d < 10,
    ensures
        s@ == seq![digit_char(d as nat)],
{
    if d == 0 {
        proof {
            reveal_strlit("0");
            assert(("0")@ =~= seq![digit_char(d as nat)]);
        }
        "0"
    } else if d == 1 {
        proof {
            reveal_strlit("1");
            assert(("1")@ =~= seq![digit_char(d as nat)]);
        }
        "1"
    } else if d == 2 {
        proof {
            reveal_strlit("2");
            assert(("2")@ =~= seq![digit_char(d as nat)]);
        }
        "2"
    } else if d == 3 {
        proof {
            reveal_strlit("3");
            assert(("3")@ =~= seq![digit_char(d as nat)]);
        }
        "3"
    } else if d == 4 {
        proof {
            reveal_strlit("4");
            assert(("4")@ =~= seq![digit_char(d as nat)]);
        }
        "4"
    } else if d == 5 {
        proof {
            reveal_strlit("5");
            assert(("5")@ =~= seq![digit_char(d as nat)]);
        }
        "5"
    } else if d == 6 {
        proof {
            reveal_strlit("6");
            assert(("6")@ =~= seq![digit_char(d as nat)]);
        }
        "6"
    } else if d == 7 {
        proof {
            reveal_strlit("7");
            assert(("7")@ =~= seq![digit_char(d as nat)]);
        }
        "7"
    } else if d == 8 {
        proof {
            reveal_strlit("8");
            assert(("8")@ =~= seq![digit_char(d as nat)]);
        }
        "8"
    } else {
        proof {
            reveal_strlit("9");
            assert(("9")@ =~= seq![digit_char(d as nat)]);
        }
        "9"
    }
}

/// Renders `n` in decimal.
pub fn u32_to_decimal(n: u32) -> (s: String)
    ensures
        s@ == spec_digits(n as nat),
    decreases n,
{
    if n < 10 {
        let d = digit_str(n);
        d.to_owned()
    } else {
        let mut s = u32_to_decimal(n / 10);
        let d = digit_str(n % 10);
        s.append(d);
        proof {
            assert(s@ =~= spec_digits((n / 10) as nat).push(digit_char((n % 10) as nat)));
        }
        s
    }
}

/// The name of a level's output subdirectory: the level number in decimal.
pub fn level_dir_name(level: u32) -> (s: String)
    ensures
        s@ == spec_digits(level as nat),
{
    u32_to_decimal(level)
}

/// The file name of one tile under the rectangular naming scheme (and,
/// with prefix `"x"` and the PNG flag set, under the square-cube scheme).
pub fn tile_file_name(prefix: &str, row: u32, col: u32, png: bool) -> (s: String)
    ensures
        s@ == spec_tile_name(prefix@, row as nat, col as nat, ext_chars(png)),
{
    let mut s = prefix.to_owned();
    let rs = u32_to_decimal(row);
    s.append(rs.as_str());
    s.append("_");
    let cs = u32_to_decimal(col);
    s.append(cs.as_str());
    s.append(".");
    if png {
        s.append("png");
    } else {
        s.append("jpg");
    }
    proof {
        reveal_strlit("_");
        reveal_strlit(".");
        reveal_strlit("png");
        reveal_strlit("jpg");
        assert(("_")@ =~= seq!['_']);
        assert((".")@ =~= seq!['.']);
        assert(("png")@ =~= seq!['p', 'n', 'g']);
        assert(("jpg")@ =~= seq!['j', 'p', 'g']);
        assert(s@ =~= spec_tile_name(prefix@, row as nat, col as nat, ext_chars(png)));
    }
    s
}

} // verus!
