//! Text as sequences of characters: splitting into pieces and lines, joining,
//! prefixes, and unsigned decimal numbers.

use vstd::prelude::*;

verus! {

/// `String::push` appends one `char` at the end of the string.
pub assume_specification[ String::push ](s: &mut String, c: char)
    ensures
        final(s)@ == old(s)@.push(c),
;

/// The characters of `s`, in order.
pub fn chars_of(s: &str) -> (res: Vec<char>)
    ensures
        res@ == s@,
{
    let mut out: Vec<char> = Vec::new();
    for c in it: s.chars()
        invariant
            it.seq() == s@,
            out@ == s@.take(it.index() as int),
    {
        out.push(c);
    }
    out
}

/// The string made of the characters of `v`, in order.
pub fn string_of(v: &Vec<char>) -> (res: String)
    ensures
        res@ == v@,
{
    let mut out = String::new();
    let mut i: usize = 0;
    while i < v.len()
        invariant
            i <= v.len(),
            out@ == v@.take(i as int),
        decreases v.len() - i,
    {
        out.push(v[i]);
        i += 1;
    }
    out
}

/// What a vector of character vectors holds, row by row.
pub open spec fn rows(v: Seq<Vec<char>>) -> Seq<Seq<char>> {
    Seq::new(v.len(), |i: int| v[i]@)
}

/// The pieces of `s` between occurrences of `sep`. There is always at least
/// one piece; `n` separators give `n + 1` pieces, some of them possibly empty.
pub open spec fn split(s: Seq<char>, sep: char) -> Seq<Seq<char>>
    decreases s.len(),
{
    if s.len() == 0 {
        seq![Seq::<char>::empty()]
    } else {
        let before = split(s.drop_last(), sep);
        if s.last() == sep {
            before.push(Seq::<char>::empty())
        } else {
            before.drop_last().push(before.last().push(s.last()))
        }
    }
}

/// `l` without one trailing carriage return, if it has one.
pub open spec fn trim_cr(l: Seq<char>) -> Seq<char> {
    if l.len() > 0 && l.last() == '\r' {
        l.drop_last()
    } else {
        l
    }
}

/// Every row of `ls` without its trailing carriage return.
pub open spec fn trimmed(ls: Seq<Seq<char>>) -> Seq<Seq<char>> {
    Seq::new(ls.len(), |i: int| trim_cr(ls[i]))
}

/// The lines of `s`. A line ends at a line feed, or at a carriage return
/// directly followed by a line feed; neither belongs to the line. The last
/// line needs no line ending, and a line ending at the very end of `s` opens
/// no further line.
pub open spec fn lines(s: Seq<char>) -> Seq<Seq<char>> {
    let pieces = split(s, '\n');
    let ended = trimmed(pieces.drop_last());
    if pieces.last().len() == 0 {
        ended
    } else {
        ended.push(pieces.last())
    }
}

/// The rows of `ls` with `sep` between each two neighbours.
pub open spec fn join(ls: Seq<Seq<char>>, sep: char) -> Seq<char>
    decreases ls.len(),
{
    if ls.len() == 0 {
        Seq::<char>::empty()
    } else if ls.len() == 1 {
        ls[0]
    } else {
        join(ls.drop_last(), sep).push(sep) + ls.last()
    }
}

/// `split` never gives an empty list of pieces.
pub proof fn lemma_split_nonempty(s: Seq<char>, sep: char)
    ensures
        split(s, sep).len() >= 1,
    decreases s.len(),
{
    if s.len() > 0 {
        lemma_split_nonempty(s.drop_last(), sep);
    }
}

/// Text without the separator, put behind `a`, only makes the last piece
/// of `a` longer.
pub proof fn lemma_split_append(a: Seq<char>, b: Seq<char>, sep: char)
    requires
        !b.contains(sep),
    ensures
        split(a + b, sep) == split(a, sep).drop_last().push(split(a, sep).last() + b),
    decreases b.len(),
{
    lemma_split_nonempty(a, sep);
    if b.len() == 0 {
        assert(a + b == a);
        assert(split(a, sep).last() + b == split(a, sep).last());
        assert(split(a, sep).drop_last().push(split(a, sep).last()) == split(a, sep));
    } else {
        let head = b.drop_last();
        assert(!head.contains(sep)) by {
            if head.contains(sep) {
                let i = choose|i: int| 0 <= i < head.len() && head[i] == sep;
                assert(b[i] == sep);
            }
        }
        assert(b.last() != sep) by {
            assert(b[b.len() - 1] == b.last());
        }
        lemma_split_append(a, head, sep);
        assert((a + b).drop_last() == a + head);
        assert((a + b).last() == b.last());
        lemma_split_nonempty(a + head, sep);
        assert((split(a, sep).last() + head).push(b.last()) == split(a, sep).last() + b);
        let before = split(a + head, sep);
        assert(before.drop_last() == split(a, sep).drop_last());
    }
}

/// No piece holds the separator.
pub proof fn lemma_split_pieces(s: Seq<char>, sep: char)
    ensures
        forall|i: int| 0 <= i < split(s, sep).len() ==> !(#[trigger] split(s, sep)[i]).contains(sep),
    decreases s.len(),
{
    if s.len() > 0 {
        lemma_split_pieces(s.drop_last(), sep);
        lemma_split_nonempty(s.drop_last(), sep);
        let before = split(s.drop_last(), sep);
        let after = split(s, sep);
        assert forall|i: int| 0 <= i < after.len() implies !(#[trigger] after[i]).contains(
            sep,
        ) by {
            if s.last() == sep {
                if i < before.len() {
                    assert(after[i] == before[i]);
                }
            } else {
                if i < before.len() - 1 {
                    assert(after[i] == before[i]);
                } else {
                    let piece = before.last().push(s.last());
                    assert(after[i] == piece);
                    if piece.contains(sep) {
                        let k = choose|k: int| 0 <= k < piece.len() && piece[k] == sep;
                        assert(before.last()[k] == sep);
                        assert(before[before.len() - 1].contains(sep));
                    }
                }
            }
        }
    }
}

/// Splitting undoes joining, for rows that do not hold the separator.
pub proof fn lemma_split_join(ls: Seq<Seq<char>>, sep: char)
    requires
        ls.len() >= 1,
        forall|i: int| 0 <= i < ls.len() ==> !(#[trigger] ls[i]).contains(sep),
    ensures
        split(join(ls, sep), sep) == ls,
    decreases ls.len(),
{
    let none = Seq::<char>::empty();
    if ls.len() == 1 {
        lemma_split_append(none, ls[0], sep);
        assert(none + ls[0] == ls[0]);
        assert(split(none, sep) == seq![none]);
        assert(seq![none].drop_last().push(seq![none].last() + ls[0]) == ls);
    } else {
        let head = ls.drop_last();
        assert forall|i: int| 0 <= i < head.len() implies !(#[trigger] head[i]).contains(sep) by {
            assert(head[i] == ls[i]);
        }
        lemma_split_join(head, sep);
        let a = join(head, sep).push(sep);
        assert(a.drop_last() == join(head, sep));
        assert(split(a, sep) == head.push(none));
        lemma_split_append(a, ls.last(), sep);
        assert(none + ls.last() == ls.last());
        assert(head.push(none).drop_last().push(ls.last()) == ls);
    }
}

/// No line holds a line feed.
pub proof fn lemma_lines_hold_no_line_feed(s: Seq<char>)
    ensures
        forall|i: int| 0 <= i < lines(s).len() ==> !(#[trigger] lines(s)[i]).contains('\n'),
{
    lemma_split_pieces(s, '\n');
    lemma_split_nonempty(s, '\n');
    let pieces = split(s, '\n');
    assert forall|i: int| 0 <= i < lines(s).len() implies !(#[trigger] lines(s)[i]).contains(
        '\n',
    ) by {
        let line = lines(s)[i];
        if line.contains('\n') {
            let k = choose|k: int| 0 <= k < line.len() && line[k] == '\n';
            if i < pieces.len() - 1 {
                assert(line == trim_cr(pieces[i]));
                assert(pieces[i][k] == '\n');
                assert(pieces[i].contains('\n'));
            } else {
                assert(line == pieces[i]);
                assert(pieces[i].contains('\n'));
            }
        }
    }
}

/// The lines of joined rows are the rows themselves, but for two things: a
/// row before the last loses one trailing carriage return, and an empty
/// last row is no line.
pub proof fn lemma_lines_of_join(ls: Seq<Seq<char>>)
    requires
        ls.len() >= 1,
        forall|i: int| 0 <= i < ls.len() ==> !(#[trigger] ls[i]).contains('\n'),
    ensures
        lines(join(ls, '\n')) == if ls.last().len() == 0 {
            trimmed(ls.drop_last())
        } else {
            trimmed(ls.drop_last()).push(ls.last())
        },
{
    lemma_split_join(ls, '\n');
}

/// Splits `s` at every `sep`.
pub fn split_chars(s: &Vec<char>, sep: char) -> (res: Vec<Vec<char>>)
    ensures
        rows(res@) == split(s@, sep),
{
    let mut pieces: Vec<Vec<char>> = Vec::new();
    let mut current: Vec<char> = Vec::new();
    let mut i: usize = 0;
    while i < s.len()
        invariant
            i <= s.len(),
            rows(pieces@).push(current@) == split(s@.take(i as int), sep),
        decreases s.len() - i,
    {
        let c = s[i];
        proof {
            assert(s@.take(i + 1).drop_last() == s@.take(i as int));
            lemma_split_nonempty(s@.take(i as int), sep);
        }
        let ghost before = rows(pieces@).push(current@);
        if c == sep {
            pieces.push(current);
            current = Vec::new();
            assert(rows(pieces@) == before);
        } else {
            current.push(c);
            assert(rows(pieces@).push(current@) == before.drop_last().push(
                before.last().push(c),
            ));
        }
        i += 1;
    }
    proof {
        assert(s@.take(s.len() as int) == s@);
    }
    let ghost before = rows(pieces@).push(current@);
    pieces.push(current);
    assert(rows(pieces@) == before);
    pieces
}

/// Splits `s` into its lines.
pub fn split_lines(s: &Vec<char>) -> (res: Vec<Vec<char>>)
    ensures
        rows(res@) == lines(s@),
{
    let mut done: Vec<Vec<char>> = Vec::new();
    let mut current: Vec<char> = Vec::new();
    let mut i: usize = 0;
    while i < s.len()
        invariant
            i <= s.len(),
            split(s@.take(i as int), '\n').len() >= 1,
            rows(done@) == trimmed(split(s@.take(i as int), '\n').drop_last()),
            current@ == split(s@.take(i as int), '\n').last(),
        decreases s.len() - i,
    {
        let c = s[i];
        proof {
            assert(s@.take(i + 1).drop_last() == s@.take(i as int));
            lemma_split_nonempty(s@.take(i + 1), '\n');
        }
        let ghost before = split(s@.take(i as int), '\n');
        let ghost after = split(s@.take(i + 1), '\n');
        if c == '\n' {
            let n = current.len();
            if n > 0 && current[n - 1] == '\r' {
                current.pop();
            }
            assert(current@ == trim_cr(before.last()));
            let ghost ended = rows(done@);
            done.push(current);
            current = Vec::new();
            assert(after.drop_last() == before);
            assert(rows(done@) == ended.push(trim_cr(before.last())));
            assert(trimmed(before) == trimmed(before.drop_last()).push(trim_cr(before.last())));
        } else {
            current.push(c);
            assert(after.drop_last() == before.drop_last());
        }
        i += 1;
    }
    proof {
        assert(s@.take(s.len() as int) == s@);
    }
    if current.len() > 0 {
        let ghost ended = rows(done@);
        done.push(current);
        assert(rows(done@) == ended.push(current@));
    }
    done
}

/// Joins the rows of `ls`, with `sep` between each two neighbours.
pub fn join_chars(ls: &Vec<Vec<char>>, sep: char) -> (res: Vec<char>)
    ensures
        res@ == join(rows(ls@), sep),
{
    let mut out: Vec<char> = Vec::new();
    let mut i: usize = 0;
    while i < ls.len()
        invariant
            i <= ls.len(),
            out@ == join(rows(ls@).take(i as int), sep),
        decreases ls.len() - i,
    {
        let ghost head = join(rows(ls@).take(i as int), sep);
        if i > 0 {
            out.push(sep);
        }
        let line = &ls[i];
        let ghost base = out@;
        let mut j: usize = 0;
        while j < line.len()
            invariant
                j <= line.len(),
                out@ == base + line@.take(j as int),
            decreases line.len() - j,
        {
            out.push(line[j]);
            j += 1;
        }
        proof {
            assert(line@.take(line.len() as int) == line@);
            let upto = rows(ls@).take(i + 1);
            assert(upto.drop_last() == rows(ls@).take(i as int));
            assert(upto.last() == line@);
            if i > 0 {
                assert(out@ == head.push(sep) + line@);
            } else {
                assert(out@ == line@);
                assert(upto[0] == line@);
            }
        }
        i += 1;
    }
    proof {
        assert(rows(ls@).take(ls.len() as int) == rows(ls@));
    }
    out
}

/// Whether `line` starts with the characters of `prefix`.
pub fn has_prefix(line: &Vec<char>, prefix: &Vec<char>) -> (res: bool)
    ensures
        res == prefix@.is_prefix_of(line@),
{
    if prefix.len() > line.len() {
        return false;
    }
    let mut i: usize = 0;
    while i < prefix.len()
        invariant
            i <= prefix.len(),
            prefix.len() <= line.len(),
            prefix@.take(i as int) == line@.take(i as int),
        decreases prefix.len() - i,
    {
        if prefix[i] != line[i] {
            proof {
                assert(prefix@[i as int] != line@.subrange(0, prefix.len() as int)[i as int]);
            }
            return false;
        }
        proof {
            assert(prefix@.take(i + 1) == prefix@.take(i as int).push(prefix@[i as int]));
            assert(line@.take(i + 1) == line@.take(i as int).push(line@[i as int]));
        }
        i += 1;
    }
    proof {
        assert(prefix@.take(prefix.len() as int) == prefix@);
    }
    true
}

/// The index of the first row of `ls` that starts with `prefix`, if there is one.
pub open spec fn first_with_prefix(ls: Seq<Seq<char>>, prefix: Seq<char>) -> Option<int>
    decreases ls.len(),
{
    if ls.len() == 0 {
        None
    } else {
        match first_with_prefix(ls.drop_last(), prefix) {
            Some(i) => Some(i),
            None => if prefix.is_prefix_of(ls.last()) {
                Some(ls.len() - 1)
            } else {
                None
            },
        }
    }
}

/// `first_with_prefix` gives the least index of a row with the prefix, and
/// `None` exactly when no row has it.
pub proof fn lemma_first_with_prefix(ls: Seq<Seq<char>>, prefix: Seq<char>)
    ensures
        match first_with_prefix(ls, prefix) {
            Some(i) => 0 <= i < ls.len() && prefix.is_prefix_of(ls[i]) && forall|j: int|
                0 <= j < i ==> !prefix.is_prefix_of(#[trigger] ls[j]),
            None => forall|j: int| 0 <= j < ls.len() ==> !prefix.is_prefix_of(#[trigger] ls[j]),
        },
    decreases ls.len(),
{
    if ls.len() > 0 {
        lemma_first_with_prefix(ls.drop_last(), prefix);
        assert(forall|j: int| 0 <= j < ls.len() - 1 ==> ls.drop_last()[j] == ls[j]);
    }
}

/// Finds the first row of `ls` that starts with `prefix`.
pub fn find_with_prefix(ls: &Vec<Vec<char>>, prefix: &Vec<char>) -> (res: Option<usize>)
    ensures
        match res {
            Some(i) => first_with_prefix(rows(ls@), prefix@) == Some(i as int),
            None => first_with_prefix(rows(ls@), prefix@) is None,
        },
{
    let mut i: usize = 0;
    while i < ls.len()
        invariant
            i <= ls.len(),
            forall|j: int| 0 <= j < i ==> !prefix@.is_prefix_of(#[trigger] rows(ls@)[j]),
        decreases ls.len() - i,
    {
        if has_prefix(&ls[i], prefix) {
            proof {
                assert(prefix@.is_prefix_of(rows(ls@)[i as int]));
                lemma_first_with_prefix(rows(ls@), prefix@);
            }
            return Some(i);
        }
        i += 1;
    }
    proof {
        lemma_first_with_prefix(rows(ls@), prefix@);
    }
    None
}

/// Whether `c` is one of the ten decimal digits.
pub open spec fn is_digit(c: char) -> bool {
    '0' <= c && c <= '9'
}

/// Whether `t` holds decimal digits only.
pub open spec fn all_digits(t: Seq<char>) -> bool {
    forall|i: int| 0 <= i < t.len() ==> is_digit(#[trigger] t[i])
}

/// The number that the decimal digits `t` write, most significant first.
pub open spec fn digits_value(t: Seq<char>) -> nat
    decreases t.len(),
{
    if t.len() == 0 {
        0
    } else {
        digits_value(t.drop_last()) * 10 + (t.last() as int - '0' as int) as nat
    }
}

/// `t` without one leading plus sign, if it has one.
pub open spec fn unsigned_part(t: Seq<char>) -> Seq<char> {
    if t.len() > 0 && t[0] == '+' {
        t.skip(1)
    } else {
        t
    }
}

/// The 32-bit unsigned number that `t` writes in decimal: an optional plus
/// sign, then at least one digit, and a value that fits. `None` for any
/// other text.
pub open spec fn parse_u32(t: Seq<char>) -> Option<u32> {
    let d = unsigned_part(t);
    if d.len() > 0 && all_digits(d) && digits_value(d) <= u32::MAX {
        Some(digits_value(d) as u32)
    } else {
        None
    }
}

/// A longer run of digits writes no smaller number than any of its prefixes.
pub proof fn lemma_digits_value_grows(t: Seq<char>, k: int)
    requires
        0 <= k <= t.len(),
    ensures
        digits_value(t.take(k)) <= digits_value(t),
    decreases t.len(),
{
    if k == t.len() {
        assert(t.take(k) == t);
    } else {
        lemma_digits_value_grows(t.drop_last(), k);
        assert(t.drop_last().take(k) == t.take(k));
    }
}

/// Reads `t` as a 32-bit unsigned decimal number.
pub fn parse_decimal(t: &Vec<char>) -> (res: Option<u32>)
    ensures
        res == parse_u32(t@),
{
    let n = t.len();
    let start: usize = if n > 0 && t[0] == '+' {
        1
    } else {
        0
    };
    if start == n {
        return None;
    }
    let ghost d = unsigned_part(t@);
    let mut acc: u64 = 0;
    let mut i: usize = start;
    while i < n
        invariant
            start <= i <= n,
            n == t.len(),
            d == t@.skip(start as int),
            d == unsigned_part(t@),
            all_digits(d.take(i - start)),
            acc == digits_value(d.take(i - start)),
            acc <= u32::MAX,
        decreases n - i,
    {
        let c = t[i];
        let ghost upto = d.take(i + 1 - start);
        proof {
            assert(upto.drop_last() == d.take(i - start));
            assert(upto.last() == c);
            assert(d[i - start] == c);
        }
        if !(c >= '0' && c <= '9') {
            assert(!is_digit(d[i - start]));
            return None;
        }
        let digit: u64 = (c as u32 - '0' as u32) as u64;
        acc = acc * 10 + digit;
        if acc > 0xffff_ffff {
            proof {
                lemma_digits_value_grows(d, i + 1 - start);
            }
            return None;
        }
        i += 1;
    }
    proof {
        assert(d.take(n - start) == d);
    }
    Some(acc as u32)
}

/// The character that writes the digit `d`.
pub open spec fn digit_char(d: nat) -> char {
    ('0' as int + d) as char
}

/// `v` written in decimal, without sign or leading zeros.
pub open spec fn decimal(v: nat) -> Seq<char>
    decreases v,
{
    if v < 10 {
        seq![digit_char(v)]
    } else {
        decimal(v / 10).push(digit_char(v % 10))
    }
}

/// A number written in decimal is one or more digits that write that number.
pub proof fn lemma_decimal_digits(v: nat)
    ensures
        decimal(v).len() >= 1,
        all_digits(decimal(v)),
        digits_value(decimal(v)) == v,
    decreases v,
{
    if v < 10 {
        let t = decimal(v);
        assert(t.drop_last() == Seq::<char>::empty());
        assert(digits_value(t.drop_last()) == 0);
    } else {
        lemma_decimal_digits(v / 10);
        let t = decimal(v);
        assert(t.drop_last() == decimal(v / 10));
        assert(t.last() == digit_char(v % 10));
        assert forall|i: int| 0 <= i < t.len() implies is_digit(#[trigger] t[i]) by {
            if i < t.len() - 1 {
                assert(t[i] == decimal(v / 10)[i]);
            }
        }
    }
}

/// Reading a 32-bit number written in decimal gives the number back.
pub proof fn lemma_parse_decimal(v: u32)
    ensures
        parse_u32(decimal(v as nat)) == Some(v),
{
    lemma_decimal_digits(v as nat);
    let t = decimal(v as nat);
    assert(is_digit(t[0]));
}

/// Appends `v`, written in decimal, to `out`.
fn push_decimal(v: u32, out: &mut Vec<char>)
    ensures
        final(out)@ == old(out)@ + decimal(v as nat),
    decreases v,
{
    if v >= 10 {
        push_decimal(v / 10, out);
    }
    let d: u8 = (v % 10) as u8;
    out.push((48u8 + d) as char);
}

/// `v` written in decimal.
pub fn decimal_chars(v: u32) -> (res: Vec<char>)
    ensures
        res@ == decimal(v as nat),
{
    let mut out: Vec<char> = Vec::new();
    push_decimal(v, &mut out);
    out
}

} // verus!
