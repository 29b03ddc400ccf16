//! A fixed-width ASCII rendering of the lattice, for logs and tests: row and
//! column headers, one parenthesized node index per cell, and connector
//! glyphs (`-` right, `|` down, `\` down-right, `/` down-left, `x` where both
//! diagonals cross) reflecting the neighbour lists.

use vstd::prelude::*;

use vstd::arithmetic::div_mod::lemma_mod_multiples_basic;

use crate::lattice::Lattice2D;

verus! {

/// The number of decimal digits of `n`.
pub open spec fn digit_count(n: int) -> int
    decreases n,
{
    if n < 10 {
        1
    } else {
        1 + digit_count(n / 10)
    }
}

/// Ten to the `k`.
spec fn ten_pow(k: int) -> int
    decreases k,
{
    if k <= 0 {
        1
    } else {
        10 * ten_pow(k - 1)
    }
}

/// A number below ten to the `k` has at most `k` digits.
proof fn lemma_digit_count_le(n: int, k: int)
    requires
        k >= 1,
        0 <= n < ten_pow(k),
    ensures
        digit_count(n) <= k,
    decreases k,
{
    if n >= 10 {
        assert(n / 10 < ten_pow(k - 1)) by (nonlinear_arith)
            requires n < 10 * ten_pow(k - 1) && n >= 10;
        lemma_digit_count_le(n / 10, k - 1);
    }
}

/// Every number has at least one digit.
proof fn lemma_digit_count_pos(n: int)
    ensures
        digit_count(n) >= 1,
    decreases n,
{
    if n >= 10 {
        lemma_digit_count_pos(n / 10);
    }
}

/// More digits never come from a smaller number.
proof fn lemma_digit_count_monotone(m: int, n: int)
    requires
        0 <= m <= n,
    ensures
        digit_count(m) <= digit_count(n),
    decreases n,
{
    lemma_digit_count_pos(n);
    if m >= 10 {
        assert(m / 10 <= n / 10 && 0 <= m / 10 && m / 10 < m) by (nonlinear_arith)
            requires 10 <= m <= n;
        lemma_digit_count_monotone(m / 10, n / 10);
    }
}

/// The width of one text line of the picture: the row header column, the
/// cell columns, and the line's own break.
pub open spec fn picture_line_width(l: Lattice2D) -> int {
    digit_count(l.rows_spec() as int) + l.columns_spec() * (digit_count(l.size_spec()) + 3) + 1
}

/// Line breaks sit only at line ends: wherever the buffer holds one, the
/// next position starts a new line.
spec fn breaks_at_line_ends(s: Seq<u8>, lw: int) -> bool {
    forall|j: int| 0 <= j < s.len() && s[j] == 10 ==> (j + 1) % lw == 0
}

/// All bytes of the buffer are ASCII.
spec fn all_ascii(s: Seq<u8>) -> bool {
    forall|j: int| 0 <= j < s.len() ==> s[j] < 128
}

/// The bytes the picture is drawn with: blank, line break, carriage return,
/// decimal digits, parentheses, and the five connector glyphs.
spec fn picture_byte(b: u8) -> bool {
    ||| b == 32
    ||| b == 10
    ||| b == 13
    ||| 48 <= b <= 57
    ||| b == 40
    ||| b == 41
    ||| b == 45
    ||| b == 124
    ||| b == 92
    ||| b == 47
    ||| b == 120
}

/// All bytes of the buffer belong to the picture's alphabet.
spec fn all_picture(s: Seq<u8>) -> bool {
    forall|j: int| 0 <= j < s.len() ==> picture_byte(s[j])
}

/// The characters the picture is drawn with: blank, line break, carriage
/// return, decimal digits, parentheses, and the five connector glyphs.
pub open spec fn picture_char(c: char) -> bool {
    ||| c == ' '
    ||| c == '\n'
    ||| c == '\r'
    ||| 48 <= c as u32 <= 57
    ||| c == '('
    ||| c == ')'
    ||| c == '-'
    ||| c == '|'
    ||| c == '\\'
    ||| c == '/'
    ||| c == 'x'
}

/// The decimal digits of `n`, most significant first, as ASCII bytes.
fn dec_digits(n: usize) -> (r: Vec<u8>)
    ensures
        r@.len() == digit_count(n as int),
        forall|i: int| #![trigger r@[i]] 0 <= i < r@.len() ==> 48 <= r@[i] <= 57,
{
    let mut rev: Vec<u8> = Vec::new();
    let mut m: usize = n;
    rev.push((m % 10) as u8 + 48);
    m = m / 10;
    while m > 0
        invariant
            rev@.len() >= 1,
            forall|i: int| #![trigger rev@[i]] 0 <= i < rev@.len() ==> 48 <= rev@[i] <= 57,
            digit_count(n as int) == rev@.len() + if m == 0 {
                0int
            } else {
                digit_count(m as int)
            },
        decreases m,
    {
        rev.push((m % 10) as u8 + 48);
        m = m / 10;
    }
    let len = rev.len();
    let mut fwd: Vec<u8> = Vec::new();
    let mut i: usize = 0;
    while i < len
        invariant
            i <= len,
            len == rev@.len(),
            fwd@.len() == i,
            forall|t: int| #![trigger rev@[t]] 0 <= t < rev@.len() ==> 48 <= rev@[t] <= 57,
            forall|t: int| #![trigger fwd@[t]] 0 <= t < fwd@.len() ==> 48 <= fwd@[t] <= 57,
        decreases len - i,
    {
        fwd.push(rev[len - 1 - i]);
        i += 1;
    }
    fwd
}

/// A buffer of `n` spaces.
fn make_spaces(n: usize) -> (r: Vec<u8>)
    ensures
        r@.len() == n,
        forall|j: int| #![trigger r@[j]] 0 <= j < n ==> r@[j] == 32,
{
    let mut out: Vec<u8> = Vec::new();
    let mut i: usize = 0;
    while i < n
        invariant
            i <= n,
            out@.len() == i,
            forall|j: int| #![trigger out@[j]] 0 <= j < i ==> out@[j] == 32,
        decreases n - i,
    {
        out.push(32);
        i += 1;
    }
    out
}

/// Write one picture byte, ignoring positions beyond the buffer.
fn put(buf: &mut Vec<u8>, i: usize, b: u8)
    requires
        picture_byte(b),
        all_picture(old(buf)@),
    ensures
        final (buf)@.len() == old(buf)@.len(),
        all_picture(final (buf)@),
        (i as int) < old(buf)@.len() ==> final (buf)@ == old(buf)@.update(i as int, b),
        (i as int) >= old(buf)@.len() ==> final (buf)@ == old(buf)@,
{
    if i < buf.len() {
        buf[i] = b;
    }
}

/// Read one byte, treating positions beyond the buffer as spaces.
fn get_at(buf: &Vec<u8>, i: usize) -> u8 {
    if i < buf.len() {
        buf[i]
    } else {
        32
    }
}

/// Write a digit run starting at `off`.
fn write_digits(buf: &mut Vec<u8>, off: usize, d: &Vec<u8>)
    requires
        off <= usize::MAX - 32,
        d@.len() <= 32,
        forall|i: int| #![trigger d@[i]] 0 <= i < d@.len() ==> 48 <= d@[i] <= 57,
        all_picture(old(buf)@),
    ensures
        final (buf)@.len() == old(buf)@.len(),
        all_picture(final (buf)@),
        forall|j: int|
            0 <= j < final (buf)@.len() && final (buf)@[j] == 10 ==> old(buf)@[j] == 10,
{
    let mut i: usize = 0;
    while i < d.len()
        invariant
            i <= d@.len(),
            d@.len() <= 32,
            off <= usize::MAX - 32,
            forall|t: int| #![trigger d@[t]] 0 <= t < d@.len() ==> 48 <= d@[t] <= 57,
            all_picture(buf@),
            buf@.len() == old(buf)@.len(),
            forall|j: int| 0 <= j < buf@.len() && buf@[j] == 10 ==> old(buf)@[j] == 10,
        decreases d@.len() - i,
    {
        put(buf, off + i, d[i]);
        i += 1;
    }
}

/// Relies on `String::from_utf8`: ASCII bytes decode to the string of the
/// characters with the same codes.
#[verifier::external_body]
fn ascii_string(bytes: Vec<u8>) -> (r: String)
    requires
        all_ascii(bytes@),
    ensures
        r@.len() == bytes@.len(),
        forall|i: int| 0 <= i < r@.len() ==> r@[i] == bytes@[i] as char,
{
    match String::from_utf8(bytes) {
        Ok(s) => s,
        Err(_) => String::new(),
    }
}

impl Lattice2D {
    /// The ASCII picture of the lattice: a carriage-return/newline, then two
    /// text lines per grid row of the fixed width the header and cell
    /// columns need; a lattice without rows draws nothing below the prefix.
    /// A debugging aid, not a wire format. The extent bounds keep the buffer
    /// arithmetic inside the machine word: the picture takes under 88 bytes
    /// per cell, so an eighth of that margin per extent leaves the offset
    /// sums comfortable room.
    #[verifier::loop_isolation(false)]
    #[verifier::rlimit(100)]
    pub fn render(&self) -> (r: String)
        requires
            self.wf(),
            self.columns_spec() <= usize::MAX / 256,
            self.rows_spec() <= usize::MAX / 256,
            self.size_spec() <= usize::MAX / 256,
        ensures
            r@.len() == 2 + 2 * self.rows_spec() * (digit_count(self.rows_spec() as int)
                + self.columns_spec() * (digit_count(self.size_spec()) + 3) + 1),
            r@[0] == '\r' && r@[1] == '\n',
            forall|i: int| #![trigger r@[i]] 0 <= i < r@.len() ==> picture_char(r@[i]),
            forall|i: int|
                #![trigger r@[i]]
                1 <= i < r@.len() && r@[i] == '\n' ==> (i - 1) % picture_line_width(*self) == 0,
    {
        let size = self.size();
        let cols = self.columns();
        let rows = self.rows();
        proof {
            assert(ten_pow(0) == 1);
            assert(ten_pow(1) == 10);
            assert(ten_pow(2) == 100);
            assert(ten_pow(3) == 1000);
            assert(ten_pow(4) == 10000);
            assert(ten_pow(5) == 100000);
            assert(ten_pow(6) == 1000000);
            assert(ten_pow(7) == 10000000);
            assert(ten_pow(8) == 100000000);
            assert(ten_pow(9) == 1000000000);
            assert(ten_pow(10) == 10000000000);
            assert(ten_pow(11) == 100000000000);
            assert(ten_pow(12) == 1000000000000);
            assert(ten_pow(13) == 10000000000000);
            assert(ten_pow(14) == 100000000000000);
            assert(ten_pow(15) == 1000000000000000);
            assert(ten_pow(16) == 10000000000000000);
            assert(ten_pow(17) == 100000000000000000);
            assert(ten_pow(18) == 1000000000000000000);
            assert(ten_pow(19) == 10000000000000000000);
            assert(ten_pow(20) == 100000000000000000000);
            assert((usize::MAX as int) < ten_pow(20));
            lemma_digit_count_le(size as int, 20);
            lemma_digit_count_le(rows as int, 20);
            lemma_digit_count_pos(size as int);
            lemma_digit_count_pos(rows as int);
        }
        let idv = dec_digits(size);
        let index_digits = idv.len();
        let rdv = dec_digits(rows);
        let row_digits = rdv.len();
        assert(1 <= index_digits <= 20 && 1 <= row_digits <= 20) by {
            assert(digit_count(size as int) >= 1 && digit_count(rows as int) >= 1);
        }
        let index_mid = (index_digits + 1) / 2;
        let next_offset = index_digits + 3;
        proof {
            assert(cols * next_offset <= 23 * (cols as int)) by (nonlinear_arith)
                requires 0 <= cols && 0 <= next_offset <= 23;
            assert(256 * ((usize::MAX / 256) as int) <= usize::MAX as int) by (nonlinear_arith);
        }
        let line_width = row_digits + cols * next_offset + 1;
        let line_n = rows * 2;
        proof {
            assert(line_n * line_width <= 42 * (rows as int) + 46 * (size as int))
                by (nonlinear_arith)
                requires
                    line_n == 2 * rows && line_width == row_digits + cols * next_offset + 1
                        && row_digits <= 20 && next_offset <= 23 && (rows * cols) as int == size
                        as int && rows >= 0 && cols >= 0 && next_offset >= 0 && row_digits >= 0,
            ;
            assert(line_n * line_width <= 88 * ((usize::MAX / 256) as int));
            assert(line_n * line_width <= usize::MAX as int);
        }
        let total = line_n * line_width;
        proof {
            // room for every offset sum below: the buffer plus three line
            // widths plus slack
            assert(usize::MAX >= 0xFFFF_FFFF);
            assert((total as int) + 3 * (line_width as int) + 128 <= usize::MAX as int);
        }
        proof {
            assert(line_width as int == picture_line_width(*self));
        }
        let mut buf: Vec<u8> = make_spaces(total);
        // newline at the end of every line
        let mut line: usize = 1;
        while line <= line_n
            invariant
                1 <= line <= line_n + 1,
                buf@.len() == total,
                all_picture(buf@),
                breaks_at_line_ends(buf@, line_width as int),
            decreases line_n + 1 - line,
        {
            proof {
                assert(line * line_width <= total) by (nonlinear_arith)
                    requires line <= line_n && line_width >= 0 && total == line_n * line_width;
                assert(line * line_width >= 1) by (nonlinear_arith)
                    requires line >= 1 && line_width >= 1;
            }
            put(&mut buf, line * line_width - 1, 10);
            proof {
                lemma_mod_multiples_basic(line as int, line_width as int);
            }
            line += 1;
        }
        // column headers on the first line
        let start_offset = row_digits + 2;
        let mut column: usize = 0;
        while column < cols
            invariant
                column <= cols,
                buf@.len() == total,
                all_picture(buf@),
                breaks_at_line_ends(buf@, line_width as int),
            decreases cols - column,
        {
            let cd = dec_digits(column);
            proof {
                lemma_digit_count_le(column as int, 20);
            }
            let digits_budget = if cd.len() <= index_digits {
                index_digits - cd.len()
            } else {
                0
            };
            let left_space = digits_budget / 2;
            proof {
                assert(column * next_offset <= cols * next_offset) by (nonlinear_arith)
                    requires column <= cols && next_offset >= 0 && column >= 0;
            }
            let offset = start_offset + column * next_offset + left_space;
            write_digits(&mut buf, offset, &cd);
            column += 1;
        }
        // row headers at the start of every cell line
        let mut row: usize = 0;
        while row < rows
            invariant
                row <= rows,
                buf@.len() == total,
                all_picture(buf@),
                breaks_at_line_ends(buf@, line_width as int),
            decreases rows - row,
        {
            let rd = dec_digits(row);
            proof {
                lemma_digit_count_monotone(row as int, rows as int);
            }
            let digits_budget = row_digits - rd.len();
            proof {
                assert(2 * row * line_width <= total) by (nonlinear_arith)
                    requires
                        row < rows && line_width >= 0 && row >= 0 && total == 2 * rows
                            * line_width,
                ;
            }
            let offset = line_width + 2 * row * line_width + digits_budget;
            write_digits(&mut buf, offset, &rd);
            row += 1;
        }
        // cells: index labels, parentheses, and connector glyphs
        let cell_start = line_width + row_digits + 2;
        let mut idx: usize = 0;
        while idx < size
            invariant
                idx <= size,
                buf@.len() == total,
                all_picture(buf@),
                breaks_at_line_ends(buf@, line_width as int),
            decreases size - idx,
        {
            let v = self.to_vertex_coords(idx);
            let c = v.0;
            let r2 = v.1;
            let id = dec_digits(idx);
            proof {
                lemma_digit_count_monotone(idx as int, size as int);
            }
            let digits_budget = index_digits - id.len();
            let left_space = digits_budget / 2;
            proof {
                assert(2 * r2 * line_width <= total) by (nonlinear_arith)
                    requires
                        r2 < rows && line_width >= 0 && r2 >= 0 && total == 2 * rows * line_width,
                ;
                assert(c * next_offset <= cols * next_offset) by (nonlinear_arith)
                    requires c <= cols && next_offset >= 0 && c >= 0;
            }
            let offset = cell_start + 2 * r2 * line_width + c * next_offset + left_space;
            write_digits(&mut buf, offset, &id);
            put(&mut buf, offset - 1, 40);
            put(&mut buf, offset + index_digits, 41);
            let nbrs = self.neighbours(v);
            let mut t: usize = 0;
            while t < nbrs.len()
                invariant
                    t <= nbrs@.len(),
                    buf@.len() == total,
                    all_picture(buf@),
                    breaks_at_line_ends(buf@, line_width as int),
                decreases nbrs@.len() - t,
            {
                let n = nbrs[t];
                let nc = n.0;
                let nr = n.1;
                if nc > c && nr == r2 {
                    // right neighbour
                    put(&mut buf, offset + index_digits + 1, 45);
                } else if nr > r2 && nc == c {
                    // bottom neighbour
                    put(&mut buf, offset + line_width + index_mid - 1, 124);
                } else if nc > c && nr > r2 {
                    // bottom-right neighbour
                    put(&mut buf, offset + line_width + index_digits + 1, 92);
                } else if nc < c && nr > r2 {
                    // bottom-left neighbour; crossing diagonals show as x
                    let pos = offset + line_width - 2;
                    if get_at(&buf, pos) == 92 {
                        put(&mut buf, pos, 120);
                    } else {
                        put(&mut buf, pos, 47);
                    }
                }
                t += 1;
            }
            idx += 1;
        }
        // carriage-return/newline prefix, then the buffer
        let mut all: Vec<u8> = Vec::new();
        all.push(13);
        all.push(10);
        let mut i: usize = 0;
        while i < buf.len()
            invariant
                i <= buf@.len(),
                buf@.len() == total,
                all_picture(buf@),
                breaks_at_line_ends(buf@, line_width as int),
                all@.len() == 2 + i,
                all@[0] == 13 && all@[1] == 10,
                forall|j: int| #![trigger all@[j + 2]] 0 <= j < i ==> all@[j + 2] == buf@[j],
                all_picture(all@),
            decreases buf@.len() - i,
        {
            let b = buf[i];
            all.push(b);
            i += 1;
        }
        proof {
            assert(all_ascii(all@));
        }
        let ghost source_bytes = all@;
        let picture = ascii_string(all);
        proof {
            assert(picture@[0] == 13u8 as char && picture@[1] == 10u8 as char);
            assert forall|i: int| #![trigger picture@[i]] 0 <= i < picture@.len()
                implies picture_char(picture@[i]) by {
                assert(picture_byte(source_bytes[i]));
                assert(picture@[i] == source_bytes[i] as char);
            }
            assert forall|i: int|
                #![trigger picture@[i]]
                1 <= i < picture@.len() && picture@[i] == '\n' implies (i - 1)
                % picture_line_width(*self) == 0 by {
                assert(picture@[i] == source_bytes[i] as char);
                assert(source_bytes[i] == 10);
                if i >= 2 {
                    assert(source_bytes[(i - 2) + 2] == buf@[i - 2]);
                    assert(buf@[i - 2] == 10);
                    assert(((i - 2) + 1) % (line_width as int) == 0);
                } else {
                    assert(i == 1);
                    assert((0int) % (line_width as int) == 0);
                }
            }
        }
        picture
    }
}

} // verus!
