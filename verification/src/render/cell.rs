use vstd::prelude::*;

verus! {

// ---------------------------------------------------------------------------
// Screen cells
// ---------------------------------------------------------------------------

/// The number a screen cell holds for a character and its colour:
/// red in the top byte, then green, then blue, and the character in the low byte.
pub open spec fn cell_value(ch: u8, r: u8, g: u8, b: u8) -> int {
    r as int * 0x100_0000 + g as int * 0x1_0000 + b as int * 0x100 + ch as int
}

/// The red byte of a cell.
pub open spec fn cell_red(cell: u32) -> u8 {
    (cell as int / 0x100_0000) as u8
}

/// The green byte of a cell.
pub open spec fn cell_green(cell: u32) -> u8 {
    ((cell as int / 0x1_0000) % 0x100) as u8
}

/// The blue byte of a cell.
pub open spec fn cell_blue(cell: u32) -> u8 {
    ((cell as int / 0x100) % 0x100) as u8
}

/// The character byte of a cell.
pub open spec fn cell_char(cell: u32) -> u8 {
    (cell as int % 0x100) as u8
}

/// The colour part of a cell (its three upper bytes), as one number.
pub open spec fn cell_rgb(cell: u32) -> u32 {
    (cell as int / 0x100) as u32
}

/// Packs a character and its colour into one screen cell.
pub fn make_cell(ch: u8, r: u8, g: u8, b: u8) -> (cell: u32)
    ensures
        cell == cell_value(ch, r, g, b),
{
    let cell = ((r as u32) << 24u32) | ((g as u32) << 16u32) | ((b as u32) << 8u32) | ch as u32;
    assert(((r as u32) << 24u32) | ((g as u32) << 16u32) | ((b as u32) << 8u32) | ch as u32
        == r as u32 * 0x100_0000 + g as u32 * 0x1_0000 + b as u32 * 0x100 + ch as u32)
        by (bit_vector);
    cell
}

/// Splits a screen cell into its red, green and blue bytes and its character.
pub fn unpack_cell(cell: u32) -> (parts: (u8, u8, u8, u8))
    ensures
        parts == (cell_red(cell), cell_green(cell), cell_blue(cell), cell_char(cell)),
{
    let r = (cell >> 24u32) as u8;
    let g = (cell >> 16u32) as u8;
    let b = (cell >> 8u32) as u8;
    let ch = cell as u8;
    assert((cell >> 24u32) as u8 == cell / 0x100_0000) by (bit_vector);
    assert((cell >> 16u32) as u8 == (cell / 0x1_0000) % 0x100) by (bit_vector);
    assert((cell >> 8u32) as u8 == (cell / 0x100) % 0x100) by (bit_vector);
    assert(cell as u8 == cell % 0x100) by (bit_vector);
    (r, g, b, ch)
}

/// Unpacking a packed cell gives back the character and colour that went in.
pub proof fn lemma_unpack_make_cell(ch: u8, r: u8, g: u8, b: u8)
    ensures
        0 <= cell_value(ch, r, g, b) <= u32::MAX,
        ({
            let cell = cell_value(ch, r, g, b) as u32;
            cell_red(cell) == r && cell_green(cell) == g && cell_blue(cell) == b
                && cell_char(cell) == ch
        }),
{
    let v = cell_value(ch, r, g, b);
    assert(v == r as int * 0x100_0000 + g as int * 0x1_0000 + b as int * 0x100 + ch as int);
    assert(0 <= v <= u32::MAX);
    let c = v as u32;
    assert(c as int == v);
    assert(c as int / 0x100_0000 == r as int) by (nonlinear_arith)
        requires
            c as int == r as int * 0x100_0000 + g as int * 0x1_0000 + b as int * 0x100 + ch as int,
            0 <= g < 256,
            0 <= b < 256,
            0 <= ch < 256,
    ;
    assert((c as int / 0x1_0000) % 0x100 == g as int) by (nonlinear_arith)
        requires
            c as int == r as int * 0x100_0000 + g as int * 0x1_0000 + b as int * 0x100 + ch as int,
            0 <= r < 256,
            0 <= g < 256,
            0 <= b < 256,
            0 <= ch < 256,
    ;
    assert((c as int / 0x100) % 0x100 == b as int) by (nonlinear_arith)
        requires
            c as int == r as int * 0x100_0000 + g as int * 0x1_0000 + b as int * 0x100 + ch as int,
            0 <= r < 256,
            0 <= g < 256,
            0 <= b < 256,
            0 <= ch < 256,
    ;
    assert(c as int % 0x100 == ch as int) by (nonlinear_arith)
        requires
            c as int == r as int * 0x100_0000 + g as int * 0x1_0000 + b as int * 0x100 + ch as int,
            0 <= r < 256,
            0 <= g < 256,
            0 <= b < 256,
            0 <= ch < 256,
    ;
}

/// Packing the parts of a cell gives back the cell itself.
pub proof fn lemma_make_unpack_cell(cell: u32)
    ensures
        cell_value(cell_char(cell), cell_red(cell), cell_green(cell), cell_blue(cell)) == cell,
{
    assert(cell == (cell / 0x100_0000) * 0x100_0000 + ((cell / 0x1_0000) % 0x100) * 0x1_0000
        + ((cell / 0x100) % 0x100) * 0x100 + cell % 0x100) by (bit_vector);
}


// ---------------------------------------------------------------------------
// Decimal numbers and colour escapes
// ---------------------------------------------------------------------------

/// The ASCII decimal digits of `n`, most significant first, without leading zeros.
pub open spec fn decimal(n: nat) -> Seq<u8>
    decreases n,
{
    if n < 10 {
        seq![(n + 48) as u8]
    } else {
        decimal(n / 10).push((n % 10 + 48) as u8)
    }
}

/// The number that a string of ASCII decimal digits stands for.
pub open spec fn decimal_value(s: Seq<u8>) -> int
    decreases s.len(),
{
    if s.len() == 0 {
        0
    } else {
        decimal_value(s.drop_last()) * 10 + (s.last() - 48)
    }
}

/// Whether every byte of `s` is an ASCII decimal digit.
pub open spec fn all_ascii_digits(s: Seq<u8>) -> bool {
    forall|i: int| 0 <= i < s.len() ==> 48 <= #[trigger] s[i] <= 57
}

/// The decimal form of a number reads back as that number, is made of digits only,
/// and has no leading zero (unless the number is zero itself).
pub proof fn lemma_decimal_reads_back(n: nat)
    ensures
        decimal_value(decimal(n)) == n,
        all_ascii_digits(decimal(n)),
        decimal(n).len() >= 1,
        decimal(n).len() > 1 ==> decimal(n)[0] != 48,
        n < 10 ==> decimal(n).len() == 1,
        n >= 10 ==> decimal(n).len() >= 2,
        10 <= n < 100 ==> decimal(n).len() == 2,
        100 <= n < 1000 ==> decimal(n).len() == 3,
    decreases n,
{
    if n >= 10 {
        lemma_decimal_reads_back(n / 10);
        let d = decimal(n);
        let x = (n % 10 + 48) as u8;
        assert(d == decimal(n / 10).push(x));
        assert(d.drop_last() == decimal(n / 10));
        assert(d.last() == x);
        assert(decimal_value(d) == decimal_value(decimal(n / 10)) * 10 + (x - 48));
        assert(all_ascii_digits(d)) by {
            assert forall|i: int| 0 <= i < d.len() implies 48 <= #[trigger] d[i] <= 57 by {
                if i < d.len() - 1 {
                    assert(d[i] == decimal(n / 10)[i]);
                }
            }
        }
        assert(d[0] == decimal(n / 10)[0]);
        if n / 10 < 10 {
            assert(decimal(n / 10) == seq![((n / 10) + 48) as u8]);
        }
        assert(d.len() > 1 ==> d[0] != 48);
    } else {
        let d = decimal(n);
        assert(d == seq![(n + 48) as u8]);
        assert(d.drop_last() =~= Seq::<u8>::empty());
        assert(decimal_value(d.drop_last()) == 0);
    }
}

/// ESC `[`, the bytes that open a terminal control sequence.
pub open spec fn csi() -> Seq<u8> {
    seq![27u8, 91u8]
}

/// The terminal sequence that sets the foreground to the 24-bit colour (r, g, b):
/// ESC `[38;2;` r `;` g `;` b `m`, each number in decimal.
pub open spec fn color_escape(r: u8, g: u8, b: u8) -> Seq<u8> {
    csi() + seq![51u8, 56u8, 59u8, 50u8, 59u8] + decimal(r as nat) + seq![59u8] + decimal(g as nat)
        + seq![59u8] + decimal(b as nat) + seq![109u8]
}

/// Appends the decimal digits of `n` to `out`.
pub fn push_num(out: &mut Vec<u8>, n: u8)
    ensures
        final(out)@ == old(out)@ + decimal(n as nat),
{
    let ghost n_nat = n as nat;
    if n >= 100 {
        out.push(48u8 + n / 100);
        out.push(48u8 + (n % 100) / 10);
        out.push(48u8 + n % 10);
        let ghost hundreds = decimal(n_nat / 100);
        assert(hundreds == seq![(n_nat / 100 + 48) as u8]);
        assert(decimal(n_nat / 10) == hundreds.push(((n_nat / 10) % 10 + 48) as u8));
        assert(decimal(n_nat) == decimal(n_nat / 10).push((n_nat % 10 + 48) as u8));
        assert((n_nat / 10) % 10 == (n as nat % 100) / 10);
    } else if n >= 10 {
        out.push(48u8 + n / 10);
        out.push(48u8 + n % 10);
        assert(decimal(n_nat / 10) == seq![(n_nat / 10 + 48) as u8]);
        assert(decimal(n_nat) == decimal(n_nat / 10).push((n_nat % 10 + 48) as u8));
    } else {
        out.push(48u8 + n % 10);
        assert(decimal(n_nat) == seq![(n_nat + 48) as u8]);
    }
    assert(final(out)@ =~= old(out)@ + decimal(n_nat));
}

/// Appends to `out` the terminal sequence that sets the foreground colour to (r, g, b).
pub fn push_color(out: &mut Vec<u8>, r: u8, g: u8, b: u8)
    ensures
        final(out)@ == old(out)@ + color_escape(r, g, b),
{
    out.push(0x1Bu8);
    out.push(91u8);
    out.push(51u8);
    out.push(56u8);
    out.push(59u8);
    out.push(50u8);
    out.push(59u8);
    push_num(out, r);
    out.push(59u8);
    push_num(out, g);
    out.push(59u8);
    push_num(out, b);
    out.push(109u8);
    assert(final(out)@ =~= old(out)@ + color_escape(r, g, b));
}

/// The terminal sequence that moves the cursor to `row` and `col` (both counted from 1):
/// ESC `[` row `;` col `H`.
pub open spec fn cursor_to(row: nat, col: nat) -> Seq<u8> {
    csi() + decimal(row) + seq![59u8] + decimal(col) + seq![72u8]
}

/// Appends the decimal digits of `n` to `out`.
pub fn push_usize(out: &mut Vec<u8>, n: usize)
    ensures
        final(out)@ == old(out)@ + decimal(n as nat),
    decreases n,
{
    if n >= 10 {
        push_usize(out, n / 10);
    }
    out.push(48u8 + (n % 10) as u8);
    assert(final(out)@ =~= old(out)@ + decimal(n as nat));
}

/// Appends the cursor-move sequence to row `row`, column `col` to `out`.
pub fn push_cursor_to(out: &mut Vec<u8>, row: usize, col: usize)
    ensures
        final(out)@ == old(out)@ + cursor_to(row as nat, col as nat),
{
    out.push(0x1Bu8);
    out.push(91u8);
    push_usize(out, row);
    out.push(59u8);
    push_usize(out, col);
    out.push(72u8);
    assert(final(out)@ =~= old(out)@ + cursor_to(row as nat, col as nat));
}

} // verus!
