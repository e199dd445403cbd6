//! The wordmark that is shown at the start.
use crate::text::{chars_of, is_whitespace, push_chars, push_text, trim_end, whitespace};
use vstd::prelude::*;
use vstd::string::StrSliceExecFns;
use vstd::utf8::encode_utf8;

verus! {

/// How many rows a glyph has.
pub const ROWS: usize = 6;

/// From how many columns on the wordmark stands on one line.
pub const WIDE: u32 = 66;

/// The rows of the glyph of a character.
pub open spec fn rows_of(c: char) -> Seq<Seq<char>> {
    if c == 'A' {
        seq![
            " █████╗ "@,
            "██╔══██╗"@,
            "███████║"@,
            "██╔══██║"@,
            "██║  ██║"@,
            "╚═╝  ╚═╝"@,
        ]
    } else if c == 'I' {
        seq![
            "██╗"@,
            "██║"@,
            "██║"@,
            "██║"@,
            "██║"@,
            "╚═╝"@,
        ]
    } else if c == 'R' {
        seq![
            "██████╗ "@,
            "██╔══██╗"@,
            "██████╔╝"@,
            "██╔══██╗"@,
            "██║  ██║"@,
            "╚═╝  ╚═╝"@,
        ]
    } else if c == 'S' {
        seq![
            "███████╗"@,
            "██╔════╝"@,
            "███████╗"@,
            "╚════██║"@,
            "███████║"@,
            "╚══════╝"@,
        ]
    } else if c == 'U' {
        seq![
            "██╗   ██╗"@,
            "██║   ██║"@,
            "██║   ██║"@,
            "██║   ██║"@,
            "╚██████╔╝"@,
            " ╚═════╝ "@,
        ]
    } else if c == 'T' {
        seq![
            "████████╗"@,
            "╚══██╔══╝"@,
            "   ██║   "@,
            "   ██║   "@,
            "   ██║   "@,
            "   ╚═╝   "@,
        ]
    } else if c == 'E' {
        seq![
            "███████╗"@,
            "██╔════╝"@,
            "█████╗  "@,
            "██╔══╝  "@,
            "███████╗"@,
            "╚══════╝"@,
        ]
    } else if c == 'K' {
        seq![
            "██╗  ██╗"@,
            "██║ ██╔╝"@,
            "█████╔╝ "@,
            "██╔═██╗ "@,
            "██║  ██╗"@,
            "╚═╝  ╚═╝"@,
        ]
    } else {
        seq![""@, ""@, ""@, ""@, ""@, ""@]
    }
}

fn glyph(c: char) -> (rows: [&'static str; 6])
    ensures
        rows@.map_values(|s: &'static str| s@) == rows_of(c),
{
    let rows: [&'static str; 6] = match c {
        'A' => [
            " █████╗ ",
            "██╔══██╗",
            "███████║",
            "██╔══██║",
            "██║  ██║",
            "╚═╝  ╚═╝",
        ],
        'I' => [
            "██╗",
            "██║",
            "██║",
            "██║",
            "██║",
            "╚═╝",
        ],
        'R' => [
            "██████╗ ",
            "██╔══██╗",
            "██████╔╝",
            "██╔══██╗",
            "██║  ██║",
            "╚═╝  ╚═╝",
        ],
        'S' => [
            "███████╗",
            "██╔════╝",
            "███████╗",
            "╚════██║",
            "███████║",
            "╚══════╝",
        ],
        'U' => [
            "██╗   ██╗",
            "██║   ██║",
            "██║   ██║",
            "██║   ██║",
            "╚██████╔╝",
            " ╚═════╝ ",
        ],
        'T' => [
            "████████╗",
            "╚══██╔══╝",
            "   ██║   ",
            "   ██║   ",
            "   ██║   ",
            "   ╚═╝   ",
        ],
        'E' => [
            "███████╗",
            "██╔════╝",
            "█████╗  ",
            "██╔══╝  ",
            "███████╗",
            "╚══════╝",
        ],
        'K' => [
            "██╗  ██╗",
            "██║ ██╔╝",
            "█████╔╝ ",
            "██╔═██╗ ",
            "██║  ██╗",
            "╚═╝  ╚═╝",
        ],
        _ => ["", "", "", "", "", ""],
    };
    proof {
        assert(rows@.map_values(|s: &'static str| s@) =~= rows_of(c));
    }
    rows
}

/// One row of a word.
pub open spec fn word_row(word: Seq<char>, row: int) -> Seq<char>
    decreases word.len(),
{
    if word.len() == 0 {
        Seq::empty()
    } else {
        word_row(word.drop_last(), row) + rows_of(word.last())[row]
    }
}

/// The lines of a word.
pub open spec fn word_lines(word: Seq<char>) -> Seq<Seq<char>> {
    Seq::new(ROWS as nat, |row: int| trim_end(word_row(word, row)))
}

/// The lines of the wordmark: one word where there is room for it, else two words
/// with an empty line between them.
pub open spec fn banner_lines(columns: u32) -> Seq<Seq<char>> {
    if columns >= WIDE {
        word_lines("AIRISUTEK"@)
    } else {
        word_lines("AIRISU"@) + seq![Seq::empty()] + word_lines("TEK"@)
    }
}

/// Lines, each with its end.
pub open spec fn with_ends(lines: Seq<Seq<char>>) -> Seq<char>
    decreases lines.len(),
{
    if lines.len() == 0 {
        Seq::empty()
    } else {
        with_ends(lines.drop_last()) + lines.last().push('\n')
    }
}

proof fn lemma_ends_add(a: Seq<Seq<char>>, b: Seq<Seq<char>>)
    ensures
        with_ends(a + b) == with_ends(a) + with_ends(b),
    decreases b.len(),
{
    if b.len() == 0 {
        assert(a + b =~= a);
        assert(with_ends(a) + with_ends(b) =~= with_ends(a));
    } else {
        lemma_ends_add(a, b.drop_last());
        assert((a + b).drop_last() =~= a + b.drop_last());
        assert(with_ends(a + b) =~= with_ends(a) + with_ends(b));
    }
}

fn trimmed_end(v: &Vec<char>) -> (n: usize)
    ensures
        n <= v@.len(),
        v@.take(n as int) == trim_end(v@),
{
    let mut n: usize = v.len();
    proof {
        assert(v@.take(n as int) =~= v@);
    }
    while n > 0 && is_whitespace(v[n - 1])
        invariant
            n <= v@.len(),
            trim_end(v@) == trim_end(v@.take(n as int)),
        decreases n,
    {
        proof {
            assert(v@.take(n as int).drop_last() =~= v@.take(n - 1));
        }
        n = n - 1;
    }
    n
}

fn row_text(word: &Vec<char>, row: usize) -> (line: String)
    requires
        row < ROWS,
    ensures
        line@ == word_row(word@, row as int),
{
    let mut line = String::new();
    let mut i: usize = 0;
    proof {
        assert(word@.take(0) =~= Seq::empty());
        assert(line@ =~= Seq::empty());
    }
    while i < word.len()
        invariant
            i <= word@.len(),
            row < ROWS,
            line@ == word_row(word@.take(i as int), row as int),
        decreases word@.len() - i,
    {
        let rows = glyph(word[i]);
        proof {
            assert(word@.take(i + 1).drop_last() =~= word@.take(i as int));
            assert(rows@.map_values(|s: &'static str| s@)[row as int] == rows@[row as int]@);
        }
        push_text(&mut line, rows[row]);
        i = i + 1;
    }
    proof {
        assert(word@.take(i as int) =~= word@);
    }
    line
}

fn push_word(out: &mut String, word: &str)
    ensures
        final(out)@ == old(out)@ + with_ends(word_lines(word@)),
{
    let letters = chars_of(word);
    let ghost start = out@;
    let ghost lines = word_lines(word@);
    let mut row: usize = 0;
    proof {
        assert(lines.take(0) =~= Seq::empty());
        assert(out@ =~= start + with_ends(lines.take(0)));
    }
    while row < ROWS
        invariant
            row <= ROWS,
            letters@ == word@,
            lines == word_lines(word@),
            out@ == start + with_ends(lines.take(row as int)),
        decreases ROWS - row,
    {
        let line = row_text(&letters, row);
        let v = chars_of(line.as_str());
        let n: usize = trimmed_end(&v);
        push_chars(out, &v, 0, n);
        out.push('\n');
        proof {
            assert(lines.take(row + 1).drop_last() =~= lines.take(row as int));
            assert(v@.subrange(0, n as int) =~= lines[row as int]);
            assert(out@ =~= start + with_ends(lines.take(row + 1)));
        }
        row = row + 1;
    }
    proof {
        assert(lines.take(row as int) =~= lines);
    }
}

/// The wordmark for a number of columns.
pub fn render(columns: u32) -> (result: String)
    ensures
        result@ == with_ends(banner_lines(columns)),
{
    let mut result = String::new();
    if columns >= WIDE {
        push_word(&mut result, "AIRISUTEK");
        proof {
            assert(result@ =~= with_ends(banner_lines(columns)));
        }
    } else {
        push_word(&mut result, "AIRISU");
        result.push('\n');
        push_word(&mut result, "TEK");
        proof {
            let first = word_lines("AIRISU"@);
            let gap = seq![Seq::<char>::empty()];
            lemma_ends_add(first, gap);
            lemma_ends_add(first + gap, word_lines("TEK"@));
            reveal_with_fuel(with_ends, 2);
            assert(gap.drop_last() =~= Seq::empty());
            assert(with_ends(gap) =~= seq!['\n']);
            assert(result@ =~= with_ends(banner_lines(columns)));
        }
    }
    result
}

/// Writes the wordmark and a zero byte into a buffer that has room for them, and
/// leaves a smaller one as it is. Returns how much room is needed.
pub fn startup_banner(columns: u32, buffer: &mut Vec<u8>, capacity: usize) -> (required: usize)
    requires
        capacity <= old(buffer)@.len(),
    ensures
        required == encode_utf8(with_ends(banner_lines(columns))).len() + 1,
        final(buffer)@ == if capacity >= required {
            encode_utf8(with_ends(banner_lines(columns))).push(0) + old(buffer)@.skip(
                required as int,
            )
        } else {
            old(buffer)@
        },
{
    let text = render(columns);
    let bytes = text.as_str().as_bytes_vec();
    let n: usize = bytes.len();
    proof {
        lemma_banner_short(columns);
    }
    let ghost before = buffer@;
    if capacity > n {
        let mut i: usize = 0;
        while i < n
            invariant
                i <= n == bytes@.len(),
                n < capacity <= before.len(),
                buffer@.len() == before.len(),
                forall|j: int| 0 <= j < i ==> #[trigger] buffer@[j] == bytes@[j],
                forall|j: int| i <= j < before.len() ==> #[trigger] buffer@[j] == before[j],
            decreases n - i,
        {
            buffer.set(i, bytes[i]);
            i = i + 1;
        }
        buffer.set(n, 0);
        proof {
            assert(buffer@ =~= bytes@.push(0) + before.skip(n + 1));
        }
    }
    n + 1
}

// ---- the wordmark fits ----

/// How wide a glyph is.
pub open spec fn glyph_width(c: char) -> nat {
    if c == 'A' {
        8
    } else if c == 'I' {
        3
    } else if c == 'R' {
        8
    } else if c == 'S' {
        8
    } else if c == 'U' {
        9
    } else if c == 'T' {
        9
    } else if c == 'E' {
        8
    } else if c == 'K' {
        8
    } else {
        0
    }
}

/// Whether a text has neither ends of lines nor zero characters.
pub open spec fn printable(s: Seq<char>) -> bool {
    forall|i: int| 0 <= i < s.len() ==> #[trigger] s[i] != '\n' && s[i] != '\0'
}

proof fn lemma_glyph(c: char, row: int)
    requires
        0 <= row < ROWS,
    ensures
        rows_of(c)[row].len() == glyph_width(c),
        printable(rows_of(c)[row]),
{
    reveal_strlit(" █████╗ ");
    reveal_strlit("██╔══██╗");
    reveal_strlit("███████║");
    reveal_strlit("██╔══██║");
    reveal_strlit("██║  ██║");
    reveal_strlit("╚═╝  ╚═╝");
    reveal_strlit("██╗");
    reveal_strlit("██║");
    reveal_strlit("╚═╝");
    reveal_strlit("██████╗ ");
    reveal_strlit("██████╔╝");
    reveal_strlit("███████╗");
    reveal_strlit("██╔════╝");
    reveal_strlit("╚════██║");
    reveal_strlit("╚══════╝");
    reveal_strlit("██╗   ██╗");
    reveal_strlit("██║   ██║");
    reveal_strlit("╚██████╔╝");
    reveal_strlit(" ╚═════╝ ");
    reveal_strlit("████████╗");
    reveal_strlit("╚══██╔══╝");
    reveal_strlit("   ██║   ");
    reveal_strlit("   ╚═╝   ");
    reveal_strlit("█████╗  ");
    reveal_strlit("██╔══╝  ");
    reveal_strlit("██╗  ██╗");
    reveal_strlit("██║ ██╔╝");
    reveal_strlit("█████╔╝ ");
    reveal_strlit("██╔═██╗ ");
    reveal_strlit("██║  ██╗");
    reveal_strlit("");
}

/// How wide a word is.
pub open spec fn word_width(word: Seq<char>) -> nat
    decreases word.len(),
{
    if word.len() == 0 {
        0
    } else {
        word_width(word.drop_last()) + glyph_width(word.last())
    }
}

proof fn lemma_word_row(word: Seq<char>, row: int)
    requires
        0 <= row < ROWS,
    ensures
        word_row(word, row).len() == word_width(word),
        printable(word_row(word, row)),
    decreases word.len(),
{
    if word.len() > 0 {
        lemma_word_row(word.drop_last(), row);
        lemma_glyph(word.last(), row);
    }
}

proof fn lemma_trim_end_shorter(s: Seq<char>)
    requires
        printable(s),
    ensures
        trim_end(s).len() <= s.len(),
        printable(trim_end(s)),
    decreases s.len(),
{
    if s.len() > 0 && whitespace(s.last()) {
        assert(printable(s.drop_last()));
        lemma_trim_end_shorter(s.drop_last());
    }
}

proof fn lemma_word_lines(word: Seq<char>, i: int)
    requires
        0 <= i < ROWS,
    ensures
        word_lines(word)[i].len() <= word_width(word),
        printable(word_lines(word)[i]),
{
    lemma_word_row(word, i);
    lemma_trim_end_shorter(word_row(word, i));
}

/// The wordmark has as many lines as its words need, none of them wider than 66
/// columns, or than 46 where there is less room, and no glyph is broken by the end
/// of a line.
pub proof fn law_banner_fits(columns: u32, i: int)
    requires
        0 <= i < banner_lines(columns).len(),
    ensures
        banner_lines(columns).len() == if columns >= 66 {
            6int
        } else {
            13
        },
        banner_lines(columns)[i].len() <= if columns >= 66 {
            66int
        } else {
            46
        },
        printable(banner_lines(columns)[i]),
{
    reveal_strlit("AIRISUTEK");
    reveal_strlit("AIRISU");
    reveal_strlit("TEK");
    reveal_with_fuel(word_width, 10);
    if columns >= 66 {
        lemma_word_lines("AIRISUTEK"@, i);
    } else if i < 6 {
        lemma_word_lines("AIRISU"@, i);
    } else if i > 6 {
        lemma_word_lines("TEK"@, i - 7);
    }
}

proof fn lemma_ends_short(lines: Seq<Seq<char>>)
    requires
        forall|i: int| 0 <= i < lines.len() ==> (#[trigger] lines[i]).len() <= 66,
    ensures
        with_ends(lines).len() <= 67 * lines.len(),
    decreases lines.len(),
{
    if lines.len() > 0 {
        lemma_ends_short(lines.drop_last());
        assert(lines[lines.len() - 1].len() <= 66);
    }
}

proof fn lemma_encoding_short(s: Seq<char>)
    ensures
        encode_utf8(s).len() <= 4 * s.len(),
    decreases s.len(),
{
    if s.len() > 0 {
        lemma_encoding_short(s.drop_first());
    }
}

proof fn lemma_banner_short(columns: u32)
    ensures
        encode_utf8(with_ends(banner_lines(columns))).len() <= 4 * 67 * 13,
{
    let lines = banner_lines(columns);
    assert forall|i: int| 0 <= i < lines.len() implies (#[trigger] lines[i]).len() <= 66 by {
        law_banner_fits(columns, i);
    }
    assert(lines.len() > 0);
    law_banner_fits(columns, 0);
    lemma_ends_short(lines);
    lemma_encoding_short(with_ends(lines));
}

} // verus!
