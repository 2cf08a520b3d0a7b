use vstd::prelude::*;

verus! {

/// A line without the carriage return that ends it, if one does.
pub open spec fn strip_cr(line: Seq<char>) -> Seq<char> {
    if line.len() > 0 && line.last() == '\r' {
        line.drop_last()
    } else {
        line
    }
}

/// Reading `s` from the start: the lines already ended by a line feed, and the
/// characters read since the last line feed.
pub open spec fn scan_lines(s: Seq<char>) -> (Seq<Seq<char>>, Seq<char>)
    decreases s.len(),
{
    if s.len() == 0 {
        (Seq::empty(), Seq::empty())
    } else {
        let (done, cur) = scan_lines(s.drop_last());
        if s.last() == '\n' {
            (done.push(strip_cr(cur)), Seq::empty())
        } else {
            (done, cur.push(s.last()))
        }
    }
}

/// The lines of a text: split at each line feed, a carriage return just before a line
/// feed dropped, and no empty line after a final line feed.
pub open spec fn spec_lines(s: Seq<char>) -> Seq<Seq<char>> {
    let (done, cur) = scan_lines(s);
    if cur.len() > 0 {
        done.push(cur)
    } else {
        done
    }
}

/// No line is longer than the text, and there are no more lines than characters.
pub proof fn lemma_lines_bounded(s: Seq<char>)
    ensures
        spec_lines(s).len() <= s.len(),
        forall|k: int| 0 <= k < spec_lines(s).len() ==> #[trigger] spec_lines(s)[k].len() <= s.len(),
{
    lemma_scan_bounded(s);
}

proof fn lemma_scan_bounded(s: Seq<char>)
    ensures
        scan_lines(s).0.len() + scan_lines(s).1.len() <= s.len(),
        forall|k: int|
            0 <= k < scan_lines(s).0.len() ==> #[trigger] scan_lines(s).0[k].len() <= s.len(),
    decreases s.len(),
{
    if s.len() > 0 {
        lemma_scan_bounded(s.drop_last());
    }
}

/// No line of a text holds a line feed.
pub proof fn lemma_lines_no_newline(s: Seq<char>)
    ensures
        forall|k: int, j: int|
            0 <= k < spec_lines(s).len() && 0 <= j < spec_lines(s)[k].len() ==> #[trigger] spec_lines(s)[k][j]
                != '\n',
{
    lemma_scan_no_newline(s);
}

proof fn lemma_scan_no_newline(s: Seq<char>)
    ensures
        forall|k: int, j: int|
            0 <= k < scan_lines(s).0.len() && 0 <= j < scan_lines(s).0[k].len() ==> #[trigger] scan_lines(s).0[k][j]
                != '\n',
        forall|j: int| 0 <= j < scan_lines(s).1.len() ==> #[trigger] scan_lines(s).1[j] != '\n',
    decreases s.len(),
{
    if s.len() > 0 {
        lemma_scan_no_newline(s.drop_last());
        let (done, cur) = scan_lines(s.drop_last());
        if s.last() == '\n' {
            let line = strip_cr(cur);
            assert forall|j: int| 0 <= j < line.len() implies #[trigger] line[j] != '\n' by {
                assert(line[j] == cur[j]);
            }
            assert forall|k: int, j: int|
                0 <= k < scan_lines(s).0.len() && 0 <= j < scan_lines(s).0[k].len() implies #[trigger] scan_lines(
                s,
            ).0[k][j] != '\n' by {
                if k < done.len() {
                    assert(scan_lines(s).0[k] == done[k]);
                } else {
                    assert(scan_lines(s).0[k] == line);
                }
            }
        } else {
            assert forall|j: int| 0 <= j < scan_lines(s).1.len() implies #[trigger] scan_lines(s).1[j] != '\n' by {
                if j < cur.len() {
                    assert(scan_lines(s).1[j] == cur[j]);
                }
            }
        }
    }
}

/// The line of a text without line feed ends with no line feed of its own.
pub open spec fn plain_line(line: Seq<char>) -> bool {
    &&& forall|j: int| 0 <= j < line.len() ==> #[trigger] line[j] != '\n'
    &&& (line.len() > 0 ==> line.last() != '\r')
}

/// Reading on through characters without line feed only extends the current line.
proof fn lemma_scan_append(p: Seq<char>, q: Seq<char>)
    requires
        forall|j: int| 0 <= j < q.len() ==> #[trigger] q[j] != '\n',
    ensures
        scan_lines(p + q) == (scan_lines(p).0, scan_lines(p).1 + q),
    decreases q.len(),
{
    if q.len() == 0 {
        assert(p + q =~= p);
        assert(scan_lines(p).1 + q =~= scan_lines(p).1);
    } else {
        lemma_scan_append(p, q.drop_last());
        assert((p + q).drop_last() =~= p + q.drop_last());
        assert((p + q).last() == q.last());
        assert(scan_lines(p).1 + q.drop_last() + seq![q.last()] =~= scan_lines(p).1 + q);
        assert((scan_lines(p).1 + q.drop_last()).push(q.last()) =~= scan_lines(p).1 + q);
    }
}

/// Joining lines, each ended by a line feed, and reading the text back gives the
/// same lines, as long as no line holds a line feed or ends with a carriage return.
pub proof fn lemma_lines_of_joined(lines: Seq<Seq<char>>)
    requires
        forall|k: int| 0 <= k < lines.len() ==> plain_line(#[trigger] lines[k]),
    ensures
        spec_lines(join_lines(lines)) == lines,
{
    lemma_scan_joined(lines);
}

proof fn lemma_scan_joined(lines: Seq<Seq<char>>)
    requires
        forall|k: int| 0 <= k < lines.len() ==> plain_line(#[trigger] lines[k]),
    ensures
        scan_lines(join_lines(lines)) == (lines, Seq::<char>::empty()),
    decreases lines.len(),
{
    if lines.len() == 0 {
        assert(scan_lines(join_lines(lines)).0 =~= lines);
    } else {
        let rest = lines.drop_last();
        assert forall|k: int| 0 <= k < rest.len() implies plain_line(#[trigger] rest[k]) by {
            assert(rest[k] == lines[k]);
        }
        lemma_scan_joined(rest);
        let last = lines.last();
        assert(plain_line(lines[lines.len() - 1]));
        lemma_scan_append(join_lines(rest), last);
        let t = join_lines(rest) + last;
        assert(join_lines(lines) == t + seq!['\n']);
        assert((t + seq!['\n']).drop_last() =~= t);
        assert(Seq::<char>::empty() + last =~= last);
        assert(strip_cr(last) == last);
        assert(rest.push(last) =~= lines);
    }
}

/// Lines joined, each followed by a line feed.
pub open spec fn join_lines(lines: Seq<Seq<char>>) -> Seq<char>
    decreases lines.len(),
{
    if lines.len() == 0 {
        Seq::empty()
    } else {
        join_lines(lines.drop_last()) + lines.last() + seq!['\n']
    }
}

/// The characters of a string slice, in order.
pub fn to_chars(s: &str) -> (v: Vec<char>)
    ensures
        v@ == s@,
{
    let mut v: Vec<char> = Vec::new();
    for c in iter: s.chars()
        invariant
            iter.seq() == s@,
            v@ == iter.seq().take(iter.index() as int),
    {
        v.push(c);
    }
    v
}

/// The lines of a string slice, each as its characters.
pub fn split_lines(s: &str) -> (lines: Vec<Vec<char>>)
    ensures
        lines.len() == spec_lines(s@).len(),
        forall|k: int| 0 <= k < lines.len() ==> #[trigger] lines[k]@ == spec_lines(s@)[k],
{
    let cs = to_chars(s);
    let mut done: Vec<Vec<char>> = Vec::new();
    let mut cur: Vec<char> = Vec::new();
    let mut i: usize = 0;
    while i < cs.len()
        invariant
            i <= cs.len(),
            cs@ == s@,
            done.len() == scan_lines(cs@.take(i as int)).0.len(),
            forall|k: int|
                0 <= k < done.len() ==> #[trigger] done[k]@ == scan_lines(cs@.take(i as int)).0[k],
            cur@ == scan_lines(cs@.take(i as int)).1,
        decreases cs.len() - i,
    {
        let c = cs[i];
        assert(cs@.take(i + 1).drop_last() == cs@.take(i as int));
        if c == '\n' {
            if cur.len() > 0 && cur[cur.len() - 1] == '\r' {
                cur.pop();
            }
            done.push(cur);
            cur = Vec::new();
        } else {
            cur.push(c);
        }
        i = i + 1;
    }
    assert(cs@.take(cs.len() as int) == cs@);
    if cur.len() > 0 {
        done.push(cur);
    }
    done
}

/// `String::push`: appends one character at the end of the string.
#[verifier::external_body]
pub(crate) fn push_char(s: &mut String, c: char)
    ensures
        final(s)@ == old(s)@.push(c),
{
    s.push(c);
}

/// Appends characters, in order, at the end of a string.
pub fn push_chars(s: &mut String, cs: &[char])
    ensures
        final(s)@ == old(s)@ + cs@,
{
    let mut i: usize = 0;
    while i < cs.len()
        invariant
            i <= cs.len(),
            s@ == old(s)@ + cs@.take(i as int),
        decreases cs.len() - i,
    {
        push_char(s, cs[i]);
        assert(cs@.take(i + 1) == cs@.take(i as int).push(cs@[i as int]));
        i = i + 1;
    }
    assert(cs@.take(cs.len() as int) == cs@);
}

/// The characters of `cs` as a string.
pub fn string_from_chars(cs: &[char]) -> (s: String)
    ensures
        s@ == cs@,
{
    let mut s = String::new();
    push_chars(&mut s, cs);
    s
}

/// The character of a decimal digit.
pub open spec fn digit_char(d: int) -> char {
    if d == 0 {
        '0'
    } else if d == 1 {
        '1'
    } else if d == 2 {
        '2'
    } else if d == 3 {
        '3'
    } else if d == 4 {
        '4'
    } else if d == 5 {
        '5'
    } else if d == 6 {
        '6'
    } else if d == 7 {
        '7'
    } else if d == 8 {
        '8'
    } else {
        '9'
    }
}

/// The decimal writing of a natural number, without leading zeros.
pub open spec fn decimal(n: nat) -> Seq<char>
    decreases n,
{
    if n < 10 {
        seq![digit_char(n as int)]
    } else {
        decimal(n / 10).push(digit_char((n % 10) as int))
    }
}

/// `count` spaces.
pub open spec fn spaces(count: int) -> Seq<char> {
    Seq::new(count as nat, |i: int| ' ')
}

/// `s` centred in a field of `width` characters: the padding is split in two, the
/// larger half on the right.
pub open spec fn centered(s: Seq<char>, width: int) -> Seq<char> {
    if s.len() >= width {
        s
    } else {
        let pad = width - s.len();
        spaces(pad / 2) + s + spaces(pad - pad / 2)
    }
}

fn digit(d: usize) -> (c: char)
    requires
        d < 10,
    ensures
        c == digit_char(d as int),
{
    if d == 0 {
        '0'
    } else if d == 1 {
        '1'
    } else if d == 2 {
        '2'
    } else if d == 3 {
        '3'
    } else if d == 4 {
        '4'
    } else if d == 5 {
        '5'
    } else if d == 6 {
        '6'
    } else if d == 7 {
        '7'
    } else if d == 8 {
        '8'
    } else {
        '9'
    }
}

/// The decimal writing of `n`.
pub fn decimal_chars(n: usize) -> (v: Vec<char>)
    ensures
        v@ == decimal(n as nat),
    decreases n,
{
    if n < 10 {
        let mut v = Vec::new();
        v.push(digit(n));
        assert(v@ =~= seq![digit_char(n as int)]);
        v
    } else {
        let mut v = decimal_chars(n / 10);
        v.push(digit(n % 10));
        v
    }
}

/// The decimal writing of an integer, with a minus sign when it is negative.
pub open spec fn signed_decimal(n: int) -> Seq<char> {
    if n < 0 {
        seq!['-'] + decimal((-n) as nat)
    } else {
        decimal(n as nat)
    }
}

/// Appends `n` in decimal, with a minus sign when it is negative.
pub fn push_signed_decimal(s: &mut String, n: i32)
    ensures
        final(s)@ == old(s)@ + signed_decimal(n as int),
{
    if n < 0 {
        push_char(s, '-');
        let magnitude: i64 = -(n as i64);
        let digits = decimal_chars(magnitude as usize);
        push_chars(s, digits.as_slice());
        assert(s@ =~= old(s)@ + signed_decimal(n as int));
    } else {
        let digits = decimal_chars(n as usize);
        push_chars(s, digits.as_slice());
    }
}

/// The writing of a truth value.
pub open spec fn bool_text(b: bool) -> Seq<char> {
    if b {
        "true"@
    } else {
        "false"@
    }
}

/// Appends `count` spaces.
pub fn push_spaces(s: &mut String, count: usize)
    ensures
        final(s)@ == old(s)@ + spaces(count as int),
{
    let mut i: usize = 0;
    while i < count
        invariant
            i <= count,
            s@ == old(s)@ + spaces(i as int),
        decreases count - i,
    {
        push_char(s, ' ');
        assert(spaces(i + 1) =~= spaces(i as int).push(' '));
        i = i + 1;
    }
}

/// Appends `n` in decimal, centred in a field of `width` characters.
pub fn push_centered_decimal(s: &mut String, n: usize, width: usize)
    ensures
        final(s)@ == old(s)@ + centered(decimal(n as nat), width as int),
{
    let digits = decimal_chars(n);
    if digits.len() >= width {
        push_chars(s, digits.as_slice());
    } else {
        let pad = width - digits.len();
        push_spaces(s, pad / 2);
        push_chars(s, digits.as_slice());
        push_spaces(s, pad - pad / 2);
        assert(s@ =~= old(s)@ + centered(decimal(n as nat), width as int));
    }
}

} // verus!
