//! Text as sequences of characters: white space, lines, trimming, joining and
//! decimal numbers.
use vstd::prelude::*;
use vstd::string::*;

verus! {

/// `String::push` appends the one character to the end of the string.
pub assume_specification[ String::push ](s: &mut String, c: char)
    ensures
        final(s)@ == old(s)@.push(c),
;

/// The characters with the Unicode `White_Space` property.
pub open spec fn is_white(c: char) -> bool {
    let n = c as u32;
    ||| 0x9 <= n <= 0xd
    ||| n == 0x20
    ||| n == 0x85
    ||| n == 0xa0
    ||| n == 0x1680
    ||| 0x2000 <= n <= 0x200a
    ||| n == 0x2028
    ||| n == 0x2029
    ||| n == 0x202f
    ||| n == 0x205f
    ||| n == 0x3000
}

/// Is `c` white space?
pub fn white(c: char) -> (b: bool)
    ensures
        b == is_white(c),
{
    let n: u32 = c as u32;
    (0x9 <= n && n <= 0xd) || n == 0x20 || n == 0x85 || n == 0xa0 || n == 0x1680 || (0x2000 <= n
        && n <= 0x200a) || n == 0x2028 || n == 0x2029 || n == 0x202f || n == 0x205f || n == 0x3000
}

/// The characters of `s`, in order.
pub fn chars_of(s: &str) -> (r: Vec<char>)
    ensures
        r@ == s@,
{
    let mut out: Vec<char> = Vec::new();
    for c in it: s.chars()
        invariant
            it.seq() == s@,
            out@ == s@.take(it.index() as int),
    {
        out.push(c);
        assert(out@ =~= s@.take(it.index() as int + 1));
    }
    assert(out@ =~= s@);
    out
}

/// The string made of `chars[lo..hi]`.
pub fn string_of(chars: &Vec<char>, lo: usize, hi: usize) -> (r: String)
    requires
        lo <= hi <= chars@.len(),
    ensures
        r@ == chars@.subrange(lo as int, hi as int),
{
    let mut out = String::new();
    let mut i: usize = lo;
    while i < hi
        invariant
            lo <= i <= hi <= chars@.len(),
            out@ == chars@.subrange(lo as int, i as int),
        decreases hi - i,
    {
        out.push(chars[i]);
        assert(chars@.subrange(lo as int, i as int + 1) =~= chars@.subrange(
            lo as int,
            i as int,
        ).push(chars@[i as int]));
        i = i + 1;
    }
    out
}


/// The texts that a list of strings holds.
pub open spec fn views(v: Seq<String>) -> Seq<Seq<char>> {
    Seq::new(v.len(), |i: int| v[i]@)
}

/// Pushing a string pushes its text.
pub proof fn lemma_views_push(v: Seq<String>, s: String)
    ensures
        views(v.push(s)) == views(v).push(s@),
{
    assert(views(v.push(s)) =~= views(v).push(s@));
}

/// Do the two strings hold the same text?
pub fn same(a: &str, b: &str) -> (r: bool)
    ensures
        r == (a@ == b@),
{
    let x = chars_of(a);
    let y = chars_of(b);
    if x.len() != y.len() {
        return false;
    }
    let mut i: usize = 0;
    while i < x.len()
        invariant
            x@ == a@,
            y@ == b@,
            x@.len() == y@.len(),
            i <= x@.len(),
            forall|k: int| 0 <= k < i ==> x@[k] == y@[k],
        decreases x@.len() - i,
    {
        if x[i] != y[i] {
            return false;
        }
        i = i + 1;
    }
    assert(a@ =~= b@);
    true
}

// ---------------------------------------------------------------- white space
/// Text with nothing in it but white space.
pub open spec fn is_blank(s: Seq<char>) -> bool {
    forall|i: int| 0 <= i < s.len() ==> is_white(#[trigger] s[i])
}

/// `s` without the white space it starts with.
pub open spec fn trim_start(s: Seq<char>) -> Seq<char>
    decreases s.len(),
{
    if s.len() > 0 && is_white(s[0]) {
        trim_start(s.skip(1))
    } else {
        s
    }
}

/// `s` without the white space it ends with.
pub open spec fn trim_end(s: Seq<char>) -> Seq<char>
    decreases s.len(),
{
    if s.len() > 0 && is_white(s.last()) {
        trim_end(s.drop_last())
    } else {
        s
    }
}

/// `s` without the white space at either end.
pub open spec fn trim(s: Seq<char>) -> Seq<char> {
    trim_end(trim_start(s))
}

/// Where the white space at the front ends.
pub proof fn lemma_trim_start_at(s: Seq<char>, k: int)
    requires
        0 <= k <= s.len(),
        forall|i: int| 0 <= i < k ==> is_white(#[trigger] s[i]),
        k < s.len() ==> !is_white(s[k]),
    ensures
        trim_start(s) == s.skip(k),
    decreases s.len(),
{
    if k == 0 {
        assert(s.skip(0) =~= s);
    } else {
        let t = s.skip(1);
        assert forall|i: int| 0 <= i < k - 1 implies is_white(#[trigger] t[i]) by {
            assert(t[i] == s[i + 1]);
        }
        lemma_trim_start_at(t, k - 1);
        assert(t.skip(k - 1) =~= s.skip(k));
    }
}

/// Where the white space at the back starts.
pub proof fn lemma_trim_end_at(s: Seq<char>, k: int)
    requires
        0 <= k <= s.len(),
        forall|i: int| k <= i < s.len() ==> is_white(#[trigger] s[i]),
        k > 0 ==> !is_white(s[k - 1]),
    ensures
        trim_end(s) == s.take(k),
    decreases s.len(),
{
    if k == s.len() {
        assert(s.take(k) =~= s);
    } else {
        assert(is_white(s[s.len() - 1]));
        let t = s.drop_last();
        assert forall|i: int| k <= i < t.len() implies is_white(#[trigger] t[i]) by {
            assert(t[i] == s[i]);
        }
        lemma_trim_end_at(t, k);
        assert(t.take(k) =~= s.take(k));
    }
}

/// Trimming leaves nothing of blank text, and something of any other.
pub proof fn lemma_trim_blank(s: Seq<char>)
    ensures
        trim(s).len() == 0 <==> is_blank(s),
        trim_start(s).len() == 0 <==> is_blank(s),
        trim_end(s).len() == 0 <==> is_blank(s),
{
    if is_blank(s) {
        lemma_trim_start_at(s, s.len() as int);
        lemma_trim_end_at(s, 0);
    } else {
        let i = choose|i: int| 0 <= i < s.len() && !is_white(#[trigger] s[i]);
        lemma_trim_start_keeps(s, i);
        lemma_trim_end_keeps(s, i);
        let t = trim_start(s);
        lemma_trim_end_keeps(t, t.len() - (s.len() - i));
    }
}

proof fn lemma_trim_start_keeps(s: Seq<char>, i: int)
    requires
        0 <= i < s.len(),
        !is_white(s[i]),
    ensures
        trim_start(s).len() >= s.len() - i,
        trim_start(s).len() <= s.len(),
        trim_start(s)[trim_start(s).len() - (s.len() - i)] == s[i],
    decreases s.len(),
{
    if is_white(s[0]) {
        lemma_trim_start_keeps(s.skip(1), i - 1);
    }
}

proof fn lemma_trim_end_keeps(s: Seq<char>, i: int)
    requires
        0 <= i < s.len(),
        !is_white(s[i]),
    ensures
        trim_end(s).len() > i,
    decreases s.len(),
{
    if is_white(s.last()) {
        lemma_trim_end_keeps(s.drop_last(), i);
    }
}

/// Is there nothing but white space in `s`?
pub fn blank(s: &str) -> (b: bool)
    ensures
        b == is_blank(s@),
{
    let cs = chars_of(s);
    let mut i: usize = 0;
    while i < cs.len()
        invariant
            cs@ == s@,
            i <= cs@.len(),
            forall|k: int| 0 <= k < i ==> is_white(#[trigger] cs@[k]),
        decreases cs@.len() - i,
    {
        if !white(cs[i]) {
            assert(!is_white(s@[i as int]));
            return false;
        }
        i = i + 1;
    }
    true
}

/// The index of the first character of `cs` that is not white, or its length.
fn white_prefix(cs: &Vec<char>) -> (k: usize)
    ensures
        k <= cs@.len(),
        trim_start(cs@) == cs@.skip(k as int),
{
    let mut k: usize = 0;
    while k < cs.len() && white(cs[k])
        invariant
            k <= cs@.len(),
            forall|i: int| 0 <= i < k ==> is_white(#[trigger] cs@[i]),
        decreases cs@.len() - k,
    {
        k = k + 1;
    }
    proof {
        lemma_trim_start_at(cs@, k as int);
    }
    k
}

/// `s` without the white space it starts with.
pub fn trimmed_start(s: &str) -> (r: String)
    ensures
        r@ == trim_start(s@),
{
    let cs = chars_of(s);
    let k: usize = white_prefix(&cs);
    assert(cs@.skip(k as int) =~= cs@.subrange(k as int, cs@.len() as int));
    string_of(&cs, k, cs.len())
}

/// `s` without the white space it ends with.
pub fn trimmed_end(s: &str) -> (r: String)
    ensures
        r@ == trim_end(s@),
{
    let cs = chars_of(s);
    let mut k: usize = cs.len();
    while k > 0 && white(cs[k - 1])
        invariant
            k <= cs@.len(),
            forall|i: int| k <= i < cs@.len() ==> is_white(#[trigger] cs@[i]),
        decreases k,
    {
        k = k - 1;
    }
    proof {
        lemma_trim_end_at(cs@, k as int);
    }
    assert(cs@.take(k as int) =~= cs@.subrange(0, k as int));
    string_of(&cs, 0, k)
}

/// `s` without the white space at either end.
pub fn trimmed(s: &str) -> (r: String)
    ensures
        r@ == trim(s@),
{
    let t = trimmed_start(s);
    trimmed_end(t.as_str())
}

// ---------------------------------------------------------------------- lines
/// How many characters stand before the first line feed.
pub open spec fn line_len(s: Seq<char>) -> nat
    decreases s.len(),
{
    if s.len() == 0 || s[0] == '\n' {
        0
    } else {
        1 + line_len(s.skip(1))
    }
}

/// `s` without the carriage return it ends with, if it ends with one.
pub open spec fn strip_cr(s: Seq<char>) -> Seq<char> {
    if s.len() > 0 && s.last() == '\r' {
        s.drop_last()
    } else {
        s
    }
}

/// The lines of a text. A line ends with a line feed, or a carriage return and
/// a line feed, neither of which belongs to it; the last line need not end
/// with either.
pub open spec fn lines(s: Seq<char>) -> Seq<Seq<char>>
    decreases s.len(),
{
    let k = line_len(s) as int;
    if s.len() == 0 {
        seq![]
    } else if k >= s.len() {
        seq![s]
    } else {
        seq![strip_cr(s.take(k))] + lines(s.skip(k + 1))
    }
}

pub proof fn lemma_line_len_at(s: Seq<char>, k: int)
    requires
        0 <= k <= s.len(),
        forall|i: int| 0 <= i < k ==> #[trigger] s[i] != '\n',
        k < s.len() ==> s[k] == '\n',
    ensures
        line_len(s) == k,
    decreases s.len(),
{
    if k > 0 {
        let t = s.skip(1);
        assert forall|i: int| 0 <= i < k - 1 implies #[trigger] t[i] != '\n' by {
            assert(t[i] == s[i + 1]);
        }
        lemma_line_len_at(t, k - 1);
    }
}

/// What stands before the first line feed has none.
pub proof fn lemma_line_len(s: Seq<char>)
    ensures
        line_len(s) <= s.len(),
        forall|i: int| 0 <= i < line_len(s) ==> #[trigger] s[i] != '\n',
        line_len(s) < s.len() ==> s[line_len(s) as int] == '\n',
    decreases s.len(),
{
    if s.len() > 0 && s[0] != '\n' {
        let t = s.skip(1);
        lemma_line_len(t);
        assert forall|i: int| 0 <= i < line_len(s) implies #[trigger] s[i] != '\n' by {
            if i > 0 {
                assert(t[i - 1] == s[i]);
            }
        }
    }
}

/// The lines of two texts, the first of which ends its last line.
pub proof fn lemma_lines_concat(a: Seq<char>, b: Seq<char>)
    requires
        a.len() > 0 ==> a.last() == '\n',
    ensures
        lines(a + b) == lines(a) + lines(b),
    decreases a.len(),
{
    if a.len() == 0 {
        assert(a + b =~= b);
        assert(lines(a) + lines(b) =~= lines(b));
    } else {
        let s = a + b;
        lemma_line_len(a);
        let k = line_len(a) as int;
        if k == a.len() {
            assert(a[a.len() - 1] != '\n');
        }
        assert forall|i: int| 0 <= i < k implies #[trigger] s[i] != '\n' by {
            assert(s[i] == a[i]);
        }
        assert(s[k] == a[k]);
        lemma_line_len_at(s, k);
        let rest = a.skip(k + 1);
        assert(s.take(k) =~= a.take(k));
        assert(s.skip(k + 1) =~= rest + b);
        if rest.len() > 0 {
            assert(rest.last() == a.last());
        }
        lemma_lines_concat(rest, b);
        assert(lines(s) =~= lines(a) + lines(b));
    }
}

/// A text whose one line feed ends it is one line.
pub proof fn lemma_one_line(s: Seq<char>)
    requires
        s.len() > 0,
        s.last() == '\n',
        forall|i: int| 0 <= i < s.len() - 1 ==> #[trigger] s[i] != '\n',
    ensures
        lines(s).len() == 1,
{
    lemma_line_len_at(s, s.len() - 1);
    let rest = s.skip(s.len() as int);
    assert(rest.len() == 0);
    assert(lines(rest).len() == 0);
}

/// The lines of `s`, in order.
pub fn lines_of(s: &str) -> (r: Vec<String>)
    ensures
        views(r@) == lines(s@),
{
    let cs = chars_of(s);
    let n: usize = cs.len();
    let mut out: Vec<String> = Vec::new();
    let mut start: usize = 0;
    let mut i: usize = 0;
    proof {
        assert(cs@.skip(0) =~= cs@);
        assert(views(out@) + lines(cs@.skip(0)) =~= lines(cs@));
    }
    while i < n
        invariant
            n == cs@.len(),
            start <= i <= n,
            forall|k: int| start <= k < i ==> #[trigger] cs@[k] != '\n',
            lines(cs@) == views(out@) + lines(cs@.skip(start as int)),
        decreases n - i,
    {
        if cs[i] == '\n' {
            let end: usize = if i > start && cs[i - 1] == '\r' {
                i - 1
            } else {
                i
            };
            let line = string_of(&cs, start, end);
            proof {
                let t = cs@.skip(start as int);
                let k = (i - start) as int;
                assert forall|j: int| 0 <= j < k implies #[trigger] t[j] != '\n' by {
                    assert(t[j] == cs@[start + j]);
                }
                lemma_line_len_at(t, k);
                assert(line@ =~= strip_cr(t.take(k)));
                assert(t.skip(k + 1) =~= cs@.skip(i as int + 1));
                lemma_views_push(out@, line);
                assert(views(out@) + lines(t) =~= views(out@).push(line@) + lines(
                    cs@.skip(i as int + 1),
                ));
            }
            out.push(line);
            start = i + 1;
        }
        i = i + 1;
    }
    if start < n {
        let line = string_of(&cs, start, n);
        proof {
            let t = cs@.skip(start as int);
            assert forall|j: int| 0 <= j < t.len() implies #[trigger] t[j] != '\n' by {
                assert(t[j] == cs@[start + j]);
            }
            lemma_line_len_at(t, t.len() as int);
            assert(line@ =~= t);
            lemma_views_push(out@, line);
            assert(views(out@) + lines(t) =~= views(out@).push(line@));
        }
        out.push(line);
    } else {
        assert(lines(cs@.skip(start as int)) =~= seq![]);
        assert(views(out@) =~= lines(cs@));
    }
    out
}

/// The parts with `sep` between each and the next.
pub open spec fn joined(parts: Seq<Seq<char>>, sep: Seq<char>) -> Seq<char>
    decreases parts.len(),
{
    if parts.len() == 0 {
        seq![]
    } else if parts.len() == 1 {
        parts[0]
    } else {
        joined(parts.drop_last(), sep) + sep + parts.last()
    }
}

/// The parts `parts[lo..hi]` with `sep` between each and the next.
pub fn join(parts: &Vec<String>, lo: usize, hi: usize, sep: &str) -> (r: String)
    requires
        lo <= hi <= parts@.len(),
    ensures
        r@ == joined(views(parts@).subrange(lo as int, hi as int), sep@),
{
    let mut out = String::new();
    let mut i: usize = lo;
    let ghost v = views(parts@);
    assert(v.subrange(lo as int, lo as int) =~= seq![]);
    while i < hi
        invariant
            lo <= i <= hi <= parts@.len(),
            v == views(parts@),
            out@ == joined(v.subrange(lo as int, i as int), sep@),
        decreases hi - i,
    {
        proof {
            let next = v.subrange(lo as int, i as int + 1);
            assert(next.drop_last() =~= v.subrange(lo as int, i as int));
            assert(next.last() == parts@[i as int]@);
        }
        if i > lo {
            out.append(sep);
            out.append(parts[i].as_str());
        } else {
            assert(out@ =~= seq![]);
            out.append(parts[i].as_str());
            assert(out@ =~= parts@[i as int]@);
        }
        i = i + 1;
    }
    out
}

/// A join taken from the front.
proof fn lemma_joined_front(parts: Seq<Seq<char>>, sep: Seq<char>)
    requires
        parts.len() >= 2,
    ensures
        joined(parts, sep) == parts[0] + sep + joined(parts.skip(1), sep),
    decreases parts.len(),
{
    let rest = parts.skip(1);
    assert(parts.drop_last().skip(1) =~= rest.drop_last());
    if parts.len() == 2 {
        assert(parts.drop_last().len() == 1);
        assert(joined(parts.drop_last(), sep) == parts[0]);
        assert(rest.len() == 1);
    } else {
        lemma_joined_front(parts.drop_last(), sep);
        assert(joined(parts, sep) =~= parts[0] + sep + joined(rest, sep));
    }
}

/// A line as the lines of a text are: no line feed in it, and no carriage
/// return at its end.
pub open spec fn is_plain_line(s: Seq<char>) -> bool {
    &&& forall|i: int| 0 <= i < s.len() ==> #[trigger] s[i] != '\n'
    &&& s.len() > 0 ==> s.last() != '\r'
}

/// No line of a text holds a line feed.
pub proof fn lemma_lines_have_no_feed(s: Seq<char>, k: int)
    requires
        0 <= k < lines(s).len(),
    ensures
        forall|i: int| 0 <= i < lines(s)[k].len() ==> #[trigger] lines(s)[k][i] != '\n',
    decreases s.len(),
{
    lemma_line_len(s);
    let n = line_len(s) as int;
    if n < s.len() {
        let first = strip_cr(s.take(n));
        assert(lines(s) =~= seq![first] + lines(s.skip(n + 1)));
        if k > 0 {
            lemma_lines_have_no_feed(s.skip(n + 1), k - 1);
        } else {
            assert forall|i: int| 0 <= i < first.len() implies #[trigger] first[i] != '\n' by {
                assert(first[i] == s[i]);
            }
        }
    }
}

/// The lines of joined lines are those lines again, but for an empty last one.
pub proof fn lemma_lines_of_joined(run: Seq<Seq<char>>)
    requires
        run.len() > 0,
        forall|k: int| 0 <= k < run.len() ==> is_plain_line(#[trigger] run[k]),
    ensures
        lines(joined(run, "\n"@)) == if run.last().len() == 0 {
            run.drop_last()
        } else {
            run
        },
    decreases run.len(),
{
    reveal_strlit("\n");
    let s = joined(run, "\n"@);
    if run.len() == 1 {
        assert(is_plain_line(run[0]));
        lemma_line_len_at(s, s.len() as int);
        if s.len() == 0 {
            assert(lines(s) =~= run.drop_last());
        } else {
            assert(lines(s) =~= run);
        }
    } else {
        let rest = run.skip(1);
        lemma_joined_front(run, "\n"@);
        let first = run[0];
        let t = joined(rest, "\n"@);
        assert(is_plain_line(first));
        assert forall|i: int| 0 <= i < first.len() implies #[trigger] s[i] != '\n' by {
            assert(s[i] == first[i]);
        }
        assert(s[first.len() as int] == '\n');
        lemma_line_len_at(s, first.len() as int);
        assert(s.take(first.len() as int) =~= first);
        assert(s.skip(first.len() as int + 1) =~= t);
        assert forall|k: int| 0 <= k < rest.len() implies is_plain_line(#[trigger] rest[k]) by {
            assert(rest[k] == run[k + 1]);
        }
        lemma_lines_of_joined(rest);
        assert(rest.last() == run.last());
        if run.last().len() == 0 {
            assert(seq![first] + rest.drop_last() =~= run.drop_last());
        } else {
            assert(seq![first] + rest =~= run);
        }
    }
}

/// Joined lines have no more lines than were joined.
pub proof fn lemma_joined_line_count(run: Seq<Seq<char>>)
    requires
        forall|k: int, i: int|
            0 <= k < run.len() && 0 <= i < run[k].len() ==> #[trigger] run[k][i] != '\n',
    ensures
        lines(joined(run, "\n"@)).len() <= run.len(),
    decreases run.len(),
{
    reveal_strlit("\n");
    let s = joined(run, "\n"@);
    if run.len() == 1 {
        lemma_line_len_at(s, s.len() as int);
    } else if run.len() > 1 {
        let rest = run.skip(1);
        lemma_joined_front(run, "\n"@);
        let first = run[0];
        let t = joined(rest, "\n"@);
        assert forall|i: int| 0 <= i < first.len() implies #[trigger] s[i] != '\n' by {
            assert(s[i] == run[0][i]);
        }
        assert(s[first.len() as int] == '\n');
        lemma_line_len_at(s, first.len() as int);
        assert(s.skip(first.len() as int + 1) =~= t);
        assert forall|k: int, i: int|
            0 <= k < rest.len() && 0 <= i < rest[k].len() implies #[trigger] rest[k][i] != '\n' by {
            assert(rest[k] == run[k + 1]);
            assert(run[k + 1][i] != '\n');
        }
        lemma_joined_line_count(rest);
    }
}

// ------------------------------------------------------------ parts of a text
/// At most the first `n` characters of `s`.
pub open spec fn prefix(s: Seq<char>, n: int) -> Seq<char> {
    if s.len() <= n {
        s
    } else {
        s.take(n)
    }
}

/// At most the first `n` characters of `s`.
pub fn first_chars(s: &str, n: usize) -> (r: String)
    ensures
        r@ == prefix(s@, n as int),
{
    let cs = chars_of(s);
    if cs.len() <= n {
        s.to_owned()
    } else {
        assert(cs@.subrange(0, n as int) =~= s@.take(n as int));
        string_of(&cs, 0, n)
    }
}

/// Does `part` stand in `s` at index `i`?
pub open spec fn stands_at(s: Seq<char>, part: Seq<char>, i: int) -> bool {
    0 <= i <= s.len() - part.len() && s.subrange(i, i + part.len()) == part
}

/// Does `part` stand anywhere in `s`?
pub open spec fn has(s: Seq<char>, part: Seq<char>) -> bool {
    exists|i: int| stands_at(s, part, i)
}

/// Does `part` stand at index `i` of `s`?
fn part_at(s: &Vec<char>, part: &Vec<char>, i: usize) -> (r: bool)
    ensures
        r == stands_at(s@, part@, i as int),
{
    let n: usize = s.len();
    if part.len() > n || i > n - part.len() {
        return false;
    }
    let mut k: usize = 0;
    while k < part.len()
        invariant
            n == s@.len(),
            k <= part@.len(),
            i + part@.len() <= s@.len(),
            forall|j: int| 0 <= j < k ==> s@[i + j] == part@[j],
        decreases part@.len() - k,
    {
        if s[i + k] != part[k] {
            assert(s@.subrange(i as int, i + part@.len())[k as int] != part@[k as int]);
            return false;
        }
        k = k + 1;
    }
    assert(s@.subrange(i as int, i + part@.len()) =~= part@);
    true
}

/// Does `part` stand anywhere in `s`?
pub fn contains(s: &str, part: &str) -> (r: bool)
    ensures
        r == has(s@, part@),
{
    let cs = chars_of(s);
    let ps = chars_of(part);
    if ps.len() > cs.len() {
        return false;
    }
    let last: usize = cs.len() - ps.len();
    let mut i: usize = 0;
    loop
        invariant
            cs@ == s@,
            ps@ == part@,
            last == cs@.len() - ps@.len(),
            i <= last,
            forall|k: int| 0 <= k < i ==> !stands_at(s@, part@, k),
        decreases last - i,
    {
        if part_at(&cs, &ps, i) {
            return true;
        }
        if i == last {
            return false;
        }
        i = i + 1;
    }
}

/// Does `s` start with `part`?
pub open spec fn begins(s: Seq<char>, part: Seq<char>) -> bool {
    stands_at(s, part, 0)
}

/// Does `s` start with `part`?
pub fn starts_with(s: &str, part: &str) -> (r: bool)
    ensures
        r == begins(s@, part@),
{
    let cs = chars_of(s);
    let ps = chars_of(part);
    part_at(&cs, &ps, 0)
}

/// A text in double quotes, with escapes, as Rust shows strings for debugging.
pub uninterp spec fn quoted(s: Seq<char>) -> Seq<char>;

/// The `Debug` form of `str`: the text in double quotes, with escapes. Which
/// characters are escaped and how is not said.
#[verifier::external_body]
pub(crate) fn quote(s: &str) -> (r: String)
    ensures
        r@ == quoted(s@),
{
    format!("{:?}", s)
}

// -------------------------------------------------------------------- numbers
/// The decimal digit of a number below ten.
pub open spec fn digit(n: nat) -> char {
    (('0' as u32) + n) as char
}

/// A number in decimal.
pub open spec fn decimal(n: nat) -> Seq<char>
    decreases n,
{
    if n < 10 {
        seq![digit(n)]
    } else {
        decimal(n / 10).push(digit(n % 10))
    }
}

fn digit_char(n: u64) -> (c: char)
    requires
        n < 10,
    ensures
        c == digit(n as nat),
{
    if n == 0 {
        '0'
    } else if n == 1 {
        '1'
    } else if n == 2 {
        '2'
    } else if n == 3 {
        '3'
    } else if n == 4 {
        '4'
    } else if n == 5 {
        '5'
    } else if n == 6 {
        '6'
    } else if n == 7 {
        '7'
    } else if n == 8 {
        '8'
    } else {
        '9'
    }
}

/// `n` in decimal.
pub fn show_u64(n: u64) -> (r: String)
    ensures
        r@ == decimal(n as nat),
    decreases n,
{
    if n < 10 {
        let mut out = String::new();
        out.push(digit_char(n));
        assert(out@ =~= seq![digit(n as nat)]);
        out
    } else {
        let mut out = show_u64(n / 10);
        out.push(digit_char(n % 10));
        out
    }
}

/// `n` in decimal.
pub fn show(n: usize) -> (r: String)
    ensures
        r@ == decimal(n as nat),
{
    show_u64(n as u64)
}

/// Ten to the power of `k`.
pub open spec fn power_of_ten(k: nat) -> nat
    decreases k,
{
    if k == 0 {
        1
    } else {
        10 * power_of_ten((k - 1) as nat)
    }
}

/// A number below ten to the `k` has at most `k` digits.
pub proof fn lemma_decimal_len(n: nat, k: nat)
    requires
        k > 0,
        n < power_of_ten(k),
    ensures
        0 < decimal(n).len() <= k,
    decreases k,
{
    if n >= 10 {
        if k == 1 {
            assert(power_of_ten(0) == 1);
        }
        lemma_decimal_len(n / 10, (k - 1) as nat);
    }
}

/// A 64-bit number has at most twenty digits.
pub proof fn lemma_word_len(n: nat)
    requires
        n <= u64::MAX,
    ensures
        0 < decimal(n).len() <= 20,
{
    reveal_with_fuel(power_of_ten, 21);
    lemma_decimal_len(n, 20);
}

/// Every character of a number is a digit.
pub proof fn lemma_decimal_digits(n: nat)
    ensures
        forall|i: int| 0 <= i < decimal(n).len() ==> is_digit(#[trigger] decimal(n)[i]),
    decreases n,
{
    if n >= 10 {
        lemma_decimal_digits(n / 10);
        let front = decimal(n / 10);
        assert(is_digit(digit(n % 10)));
        assert forall|i: int| 0 <= i < decimal(n).len() implies is_digit(
            #[trigger] decimal(n)[i],
        ) by {
            if i < front.len() {
                assert(decimal(n)[i] == front[i]);
            }
        }
    } else {
        assert(is_digit(digit(n)));
    }
}

/// Is `c` a decimal digit?
pub open spec fn is_digit(c: char) -> bool {
    '0' as u32 <= c as u32 <= '9' as u32
}

/// The number that a text of decimal digits stands for.
pub open spec fn number(s: Seq<char>) -> Option<nat>
    decreases s.len(),
{
    if s.len() == 0 || !is_digit(s.last()) {
        None
    } else {
        let unit = (s.last() as u32 - '0' as u32) as nat;
        if s.len() == 1 {
            Some(unit)
        } else {
            match number(s.drop_last()) {
                Some(n) => Some(10 * n + unit),
                None => None,
            }
        }
    }
}

/// The number that a text of decimal digits stands for, where it has at most
/// 64 bits.
pub fn parse_u64(s: &str) -> (r: Option<u64>)
    ensures
        r == match number(s@) {
            Some(n) => if n <= u64::MAX {
                Some(n as u64)
            } else {
                None
            },
            None => None,
        },
{
    let cs = chars_of(s);
    let n: usize = cs.len();
    if n == 0 {
        return None;
    }
    let mut total: u64 = 0;
    let mut i: usize = 0;
    while i < n
        invariant
            n == cs@.len(),
            cs@ == s@,
            i <= n,
            i > 0 ==> number(s@.take(i as int)) == Some(total as nat),
            i == 0 ==> total == 0,
        decreases n - i,
    {
        let c: u32 = cs[i] as u32;
        let ghost next = s@.take(i as int + 1);
        proof {
            assert(next.drop_last() =~= s@.take(i as int));
            assert(next.last() == s@[i as int]);
        }
        if c < 48 || c > 57 {
            proof {
                lemma_number_prefix(s@, i as int + 1);
            }
            return None;
        }
        let unit: u64 = (c - 48) as u64;
        assert(number(next) == Some((10 * total + unit) as nat));
        if total > (u64::MAX - unit) / 10 {
            assert(10 * total + unit > u64::MAX);
            proof {
                lemma_number_prefix(s@, i as int + 1);
            }
            return None;
        }
        total = 10 * total + unit;
        i = i + 1;
    }
    assert(s@.take(i as int) =~= s@);
    Some(total)
}

/// A number is at least the number that any front part of it stands for, and
/// there is none where a front part is no number.
proof fn lemma_number_prefix(s: Seq<char>, k: int)
    requires
        0 < k <= s.len(),
    ensures
        number(s) matches Some(n) ==> (number(s.take(k)) matches Some(m) && m <= n),
    decreases s.len(),
{
    if k == s.len() {
        assert(s.take(k) =~= s);
    } else {
        lemma_number_prefix(s.drop_last(), k);
        assert(s.drop_last().take(k) =~= s.take(k));
    }
}

/// A list of numbers in square brackets, with a comma and a space between
/// each and the next.
pub open spec fn bracketed(ids: Seq<usize>) -> Seq<char> {
    "["@ + joined(Seq::new(ids.len(), |i: int| decimal(ids[i] as nat)), ", "@) + "]"@
}

/// A list of numbers in square brackets.
pub fn show_list(ids: &Vec<usize>) -> (r: String)
    ensures
        r@ == bracketed(ids@),
{
    let mut parts: Vec<String> = Vec::new();
    let mut i: usize = 0;
    while i < ids.len()
        invariant
            i <= ids@.len(),
            parts@.len() == i,
            forall|k: int| 0 <= k < i ==> (#[trigger] parts@[k])@ == decimal(ids@[k] as nat),
        decreases ids@.len() - i,
    {
        parts.push(show(ids[i]));
        i = i + 1;
    }
    proof {
        let want = Seq::new(ids@.len(), |k: int| decimal(ids@[k] as nat));
        assert(views(parts@).subrange(0, parts@.len() as int) =~= want);
    }
    let mut out = "[".to_owned();
    out.append(join(&parts, 0, parts.len(), ", ").as_str());
    out.append("]");
    out
}

// ----------------------------------------------------------------------- case
/// The code of a character, of its capital where it is a small Latin letter.
pub open spec fn folded(c: char) -> u32 {
    if 'a' as u32 <= c as u32 <= 'z' as u32 {
        (c as u32 - 32) as u32
    } else {
        c as u32
    }
}

/// Are the texts the same, but for the case of Latin letters?
pub open spec fn alike(a: Seq<char>, b: Seq<char>) -> bool {
    a.len() == b.len() && forall|k: int| 0 <= k < a.len() ==> folded(#[trigger] a[k]) == folded(b[k])
}

fn fold(c: char) -> (r: u32)
    ensures
        r == folded(c),
{
    let n: u32 = c as u32;
    if 97 <= n && n <= 122 {
        n - 32
    } else {
        n
    }
}

/// Are the texts the same, but for the case of Latin letters?
pub fn same_ignoring_case(a: &str, b: &str) -> (r: bool)
    ensures
        r == alike(a@, b@),
{
    let x = chars_of(a);
    let y = chars_of(b);
    if x.len() != y.len() {
        return false;
    }
    let mut i: usize = 0;
    while i < x.len()
        invariant
            i <= x@.len(),
            x@.len() == y@.len(),
            x@ == a@,
            y@ == b@,
            forall|k: int| 0 <= k < i ==> folded(#[trigger] x@[k]) == folded(y@[k]),
        decreases x@.len() - i,
    {
        if fold(x[i]) != fold(y[i]) {
            assert(folded(a@[i as int]) != folded(b@[i as int]));
            return false;
        }
        i = i + 1;
    }
    true
}

// ------------------------------------------------------------------- splitting
/// The parts of a text between separators.
pub open spec fn split(s: Seq<char>, sep: char) -> Seq<Seq<char>>
    decreases s.len(),
{
    if s.len() == 0 {
        seq![seq![]]
    } else {
        let before = split(s.drop_last(), sep);
        if s.last() == sep {
            before.push(seq![])
        } else {
            before.drop_last().push(before.last().push(s.last()))
        }
    }
}

/// The parts of a text between separators.
pub fn split_on(s: &str, sep: char) -> (r: Vec<String>)
    ensures
        views(r@) == split(s@, sep),
{
    let cs = chars_of(s);
    let mut out: Vec<String> = Vec::new();
    let mut part = String::new();
    let mut i: usize = 0;
    proof {
        assert(s@.take(0) =~= seq![]);
        assert(part@ =~= seq![]);
        assert(views(out@).push(part@) =~= seq![Seq::<char>::empty()]);
    }
    while i < cs.len()
        invariant
            i <= cs@.len(),
            cs@ == s@,
            views(out@).push(part@) == split(s@.take(i as int), sep),
        decreases cs@.len() - i,
    {
        let ghost next = s@.take(i as int + 1);
        let ghost was = views(out@).push(part@);
        proof {
            assert(next.drop_last() =~= s@.take(i as int));
            assert(next.last() == s@[i as int]);
            assert(was.drop_last() =~= views(out@));
        }
        let c: char = cs[i];
        if c == sep {
            let ghost old_out = out@;
            let ghost ended = part@;
            out.push(part);
            part = String::new();
            assert(part@ =~= seq![]);
            assert(views(out@) =~= views(old_out).push(ended));
            assert(views(out@).push(part@) =~= was.push(seq![]));
        } else {
            part.push(c);
        }
        i = i + 1;
    }
    assert(s@.take(i as int) =~= s@);
    let ghost old_out = out@;
    let ghost ended = part@;
    out.push(part);
    assert(views(out@) =~= views(old_out).push(ended));
    out
}

/// White space at the end changes nothing of what trimming leaves.
pub proof fn lemma_trim_tail(a: Seq<char>, b: Seq<char>)
    requires
        is_blank(b),
    ensures
        trim(a + b) == trim(a),
{
    let s = a + b;
    if is_blank(a) {
        assert forall|k: int| 0 <= k < s.len() implies is_white(#[trigger] s[k]) by {
            if k < a.len() {
                assert(s[k] == a[k]);
            } else {
                assert(s[k] == b[k - a.len()]);
            }
        }
        lemma_trim_blank(a);
        lemma_trim_blank(s);
        assert(trim(s) =~= trim(a));
    } else {
        let (i, j) = law_trimming_takes_white_space_off_the_ends(a);
        if i == j {
            assert(trim(a).len() == 0);
            lemma_trim_blank(a);
        }
        assert forall|k: int| 0 <= k < i implies is_white(#[trigger] s[k]) by {
            assert(s[k] == a[k]);
        }
        assert(s[i] == a[i]);
        lemma_trim_start_at(s, i);
        let t = s.skip(i);
        assert forall|k: int| j - i <= k < t.len() implies is_white(#[trigger] t[k]) by {
            if k + i < a.len() {
                assert(t[k] == a[k + i]);
            } else {
                assert(t[k] == b[k + i - a.len()]);
            }
        }
        assert(t[j - i - 1] == a[j - 1]);
        lemma_trim_end_at(t, j - i);
        assert(t.take(j - i) =~= a.subrange(i, j));
    }
}

// ----------------------------------------------------------------------- laws
/// Trimming takes the white space off both ends and nothing else: what is left
/// is a stretch of the text, all before it and after it is white, and it begins
/// and ends with something that is not.
pub proof fn law_trimming_takes_white_space_off_the_ends(s: Seq<char>) -> (span: (int, int))
    ensures
        0 <= span.0 <= span.1 <= s.len(),
        trim(s) == s.subrange(span.0, span.1),
        forall|k: int| 0 <= k < span.0 ==> is_white(#[trigger] s[k]),
        forall|k: int| span.1 <= k < s.len() ==> is_white(#[trigger] s[k]),
        span.0 < span.1 ==> !is_white(s[span.0]) && !is_white(s[span.1 - 1]),
{
    let i = law_trimming_the_front(s);
    let t = s.skip(i);
    let j = law_trimming_the_back(t);
    assert(t.take(j) =~= s.subrange(i, i + j));
    assert forall|k: int| i + j <= k < s.len() implies is_white(#[trigger] s[k]) by {
        assert(t[k - i] == s[k]);
    }
    if j > 0 {
        assert(t[j - 1] == s[i + j - 1]);
        if is_white(s[i]) {
            assert(i == s.len());
        }
    }
    (i, i + j)
}

/// Trimming the front takes the white space there and nothing else.
pub proof fn law_trimming_the_front(s: Seq<char>) -> (i: int)
    ensures
        0 <= i <= s.len(),
        trim_start(s) == s.skip(i),
        forall|k: int| 0 <= k < i ==> is_white(#[trigger] s[k]),
        i < s.len() ==> !is_white(s[i]),
    decreases s.len(),
{
    if s.len() > 0 && is_white(s[0]) {
        let i = law_trimming_the_front(s.skip(1));
        assert(s.skip(1).skip(i) =~= s.skip(i + 1));
        assert forall|k: int| 0 <= k < i + 1 implies is_white(#[trigger] s[k]) by {
            if k > 0 {
                assert(s.skip(1)[k - 1] == s[k]);
            }
        }
        if i + 1 < s.len() {
            assert(s.skip(1)[i] == s[i + 1]);
        }
        i + 1
    } else {
        assert(s.skip(0) =~= s);
        0
    }
}

/// Trimming the back takes the white space there and nothing else.
pub proof fn law_trimming_the_back(s: Seq<char>) -> (j: int)
    ensures
        0 <= j <= s.len(),
        trim_end(s) == s.take(j),
        forall|k: int| j <= k < s.len() ==> is_white(#[trigger] s[k]),
        j > 0 ==> !is_white(s[j - 1]),
    decreases s.len(),
{
    if s.len() > 0 && is_white(s.last()) {
        let j = law_trimming_the_back(s.drop_last());
        assert(s.drop_last().take(j) =~= s.take(j));
        assert forall|k: int| j <= k < s.len() implies is_white(#[trigger] s[k]) by {
            if k < s.len() - 1 {
                assert(s.drop_last()[k] == s[k]);
            }
        }
        if j > 0 {
            assert(s.drop_last()[j - 1] == s[j - 1]);
        }
        j
    } else {
        assert(s.take(s.len() as int) =~= s);
        s.len() as int
    }
}

/// A line feed ends a line, and so does a carriage return with a line feed;
/// neither belongs to the line, and what follows is read on its own. A text
/// without a line feed is one line, and an empty one none.
pub proof fn law_a_line_feed_ends_a_line(a: Seq<char>, b: Seq<char>)
    requires
        forall|i: int| 0 <= i < a.len() ==> #[trigger] a[i] != '\n',
    ensures
        a.len() == 0 ==> lines(a) == Seq::<Seq<char>>::empty(),
        a.len() > 0 ==> lines(a) == seq![a],
        a.len() == 0 || a.last() != '\r' ==> lines(a + seq!['\n'] + b) == seq![a] + lines(b),
        lines(a + seq!['\r', '\n'] + b) == seq![a] + lines(b),
{
    lemma_line_len_at(a, a.len() as int);
    let s = a + seq!['\n'] + b;
    assert forall|i: int| 0 <= i < a.len() implies #[trigger] s[i] != '\n' by {
        assert(s[i] == a[i]);
    }
    lemma_line_len_at(s, a.len() as int);
    assert(s.take(a.len() as int) =~= a);
    assert(s.skip(a.len() as int + 1) =~= b);
    let t = a + seq!['\r', '\n'] + b;
    let n = a.len() as int + 1;
    assert forall|i: int| 0 <= i < n implies #[trigger] t[i] != '\n' by {
        if i < a.len() {
            assert(t[i] == a[i]);
        }
    }
    lemma_line_len_at(t, n);
    assert(t.take(n).drop_last() =~= a);
    assert(t.skip(n + 1) =~= b);
}

/// Joining is what it says: of one part it is the part, and a list joined is its
/// front joined, the separator, and its back joined, wherever it is parted.
pub proof fn law_joining_puts_the_separator_between(
    a: Seq<Seq<char>>,
    b: Seq<Seq<char>>,
    sep: Seq<char>,
)
    ensures
        joined(Seq::<Seq<char>>::empty(), sep) == Seq::<char>::empty(),
        a.len() == 1 ==> joined(a, sep) == a[0],
        a.len() > 0 && b.len() > 0 ==> joined(a + b, sep) == joined(a, sep) + sep + joined(b, sep),
    decreases b.len(),
{
    if a.len() > 0 && b.len() == 1 {
        assert((a + b).drop_last() =~= a);
    } else if a.len() > 0 && b.len() > 1 {
        law_joining_puts_the_separator_between(a, b.drop_last(), sep);
        assert((a + b).drop_last() =~= a + b.drop_last());
        assert(joined(a + b, sep) =~= joined(a, sep) + sep + joined(b, sep));
    }
}

/// A part stands in a text if and only if the text is something, the part, and
/// something more; and begins it if and only if it is the part and something
/// more.
pub proof fn law_a_part_stands_between(s: Seq<char>, part: Seq<char>)
    ensures
        has(s, part) <==> exists|p: Seq<char>, q: Seq<char>| s == #[trigger] (p + part + q),
        begins(s, part) <==> exists|q: Seq<char>| s == #[trigger] (part + q),
{
    if has(s, part) {
        let i = choose|i: int| #[trigger] stands_at(s, part, i);
        let p = s.take(i);
        let q = s.skip(i + part.len());
        assert(s =~= p + part + q) by {
            assert(s.subrange(i, i + part.len()) == part);
            assert forall|k: int| 0 <= k < part.len() implies part[k] == s[i + k] by {
                assert(s.subrange(i, i + part.len())[k] == s[i + k]);
            }
        }
    }
    if exists|p: Seq<char>, q: Seq<char>| s == #[trigger] (p + part + q) {
        let (p, q) = choose|p: Seq<char>, q: Seq<char>| s == #[trigger] (p + part + q);
        assert(s.subrange(p.len() as int, (p.len() + part.len()) as int) =~= part);
        assert(stands_at(s, part, p.len() as int));
    }
    if begins(s, part) {
        let q = s.skip(part.len() as int);
        assert(s =~= part + q) by {
            assert forall|k: int| 0 <= k < part.len() implies part[k] == s[k] by {
                assert(s.subrange(0, part.len() as int)[k] == s[k]);
            }
        }
    }
    if exists|q: Seq<char>| s == #[trigger] (part + q) {
        let q = choose|q: Seq<char>| s == #[trigger] (part + q);
        assert(s.subrange(0, part.len() as int) =~= part);
    }
}

/// The number that digits stand for by their places.
pub open spec fn by_place(s: Seq<char>) -> nat
    decreases s.len(),
{
    if s.len() == 0 {
        0
    } else {
        (s[0] as u32 - 48) as nat * power_of_ten((s.len() - 1) as nat) + by_place(s.skip(1))
    }
}

proof fn lemma_by_place_push(s: Seq<char>, c: char)
    requires
        forall|i: int| 0 <= i < s.len() ==> is_digit(#[trigger] s[i]),
        is_digit(c),
    ensures
        by_place(s.push(c)) == 10 * by_place(s) + (c as u32 - 48),
    decreases s.len(),
{
    let t = s.push(c);
    if s.len() == 0 {
        assert(t.skip(1) =~= seq![]);
        assert(by_place(t.skip(1)) == 0);
        assert(power_of_ten(0) == 1);
        let d = (t[0] as u32 - 48) as nat;
        assert(d * 1 == d) by (nonlinear_arith);
    } else {
        let rest = s.skip(1);
        assert(t.skip(1) =~= rest.push(c));
        assert forall|i: int| 0 <= i < rest.len() implies is_digit(#[trigger] rest[i]) by {
            assert(rest[i] == s[i + 1]);
        }
        lemma_by_place_push(rest, c);
        let d = (s[0] as u32 - 48) as nat;
        let p = power_of_ten((s.len() - 1) as nat);
        assert(power_of_ten(s.len()) == 10 * p);
        assert(d * (10 * p) == 10 * (d * p)) by (nonlinear_arith);
        assert(t[0] == s[0]);
    }
}

/// A number in decimal is digits that stand for it by their places, none of them
/// too many; and reading it gives the number back.
pub proof fn law_a_number_is_shown_by_its_digits(n: nat)
    ensures
        by_place(decimal(n)) == n,
        forall|i: int| 0 <= i < decimal(n).len() ==> is_digit(#[trigger] decimal(n)[i]),
        decimal(n).len() > 0,
        decimal(n).len() > 1 ==> decimal(n)[0] != '0',
        number(decimal(n)) == Some(n),
    decreases n,
{
    lemma_decimal_digits(n);
    if n < 10 {
        let c = digit(n);
        assert(decimal(n) =~= Seq::<char>::empty().push(c));
        lemma_by_place_push(seq![], c);
        assert(c as u32 == 48 + n);
    } else {
        law_a_number_is_shown_by_its_digits(n / 10);
        lemma_decimal_digits(n / 10);
        let c = digit(n % 10);
        assert(c as u32 == 48 + n % 10);
        lemma_by_place_push(decimal(n / 10), c);
        assert(decimal(n).drop_last() =~= decimal(n / 10));
        assert(decimal(n)[0] == decimal(n / 10)[0]);
        if decimal(n / 10).len() == 1 {
            let d = decimal(n / 10);
            assert(d.skip(1) =~= seq![]);
            assert(by_place(d.skip(1)) == 0);
            assert(power_of_ten(0) == 1);
            let v = (d[0] as u32 - 48) as nat;
            assert(v * 1 == v) by (nonlinear_arith);
        }
    }
}

/// A text that is read as a number is digits that stand for it by their places.
pub proof fn law_digits_are_read_by_their_places(s: Seq<char>)
    ensures
        number(s) is Some <==> s.len() > 0 && forall|i: int|
            0 <= i < s.len() ==> is_digit(#[trigger] s[i]),
        number(s) matches Some(n) ==> n == by_place(s),
    decreases s.len(),
{
    if s.len() > 0 {
        let front = s.drop_last();
        law_digits_are_read_by_their_places(front);
        assert(front.push(s.last()) =~= s);
        if forall|i: int| 0 <= i < s.len() ==> is_digit(#[trigger] s[i]) {
            assert forall|i: int| 0 <= i < front.len() implies is_digit(#[trigger] front[i]) by {
                assert(front[i] == s[i]);
            }
            assert(is_digit(s[s.len() - 1]));
            lemma_by_place_push(front, s.last());
        }
        if number(s) is Some {
            assert forall|i: int| 0 <= i < s.len() implies is_digit(#[trigger] s[i]) by {
                if i < front.len() {
                    assert(front[i] == s[i]);
                }
            }
            if s.len() == 1 {
                assert(front =~= seq![]);
                assert(by_place(front) == 0);
            }
        }
    }
}

/// Texts are alike if and only if each character of one is that of the other, or
/// the small letter of its capital, or the capital of its small letter.
pub proof fn law_alike_is_the_same_but_for_case(a: Seq<char>, b: Seq<char>)
    ensures
        alike(a, b) <==> a.len() == b.len() && forall|k: int|
            0 <= k < a.len() ==> {
                ||| #[trigger] a[k] == b[k]
                ||| 97 <= a[k] as u32 <= 122 && a[k] as u32 == b[k] as u32 + 32
                ||| 97 <= b[k] as u32 <= 122 && b[k] as u32 == a[k] as u32 + 32
            },
{
    if a.len() == b.len() {
        assert forall|k: int| 0 <= k < a.len() implies (folded(#[trigger] a[k]) == folded(b[k]) <==> {
            ||| a[k] == b[k]
            ||| 97 <= a[k] as u32 <= 122 && a[k] as u32 == b[k] as u32 + 32
            ||| 97 <= b[k] as u32 <= 122 && b[k] as u32 == a[k] as u32 + 32
        }) by {
            vstd::utf8::char_u32_cast(a[k], a[k] as u32);
            vstd::utf8::char_u32_cast(b[k], b[k] as u32);
        }
    }
}

/// Splitting loses nothing: the parts joined with the separator are the text
/// again, and no part has a separator in it.
pub proof fn law_splitting_loses_nothing(s: Seq<char>, sep: char)
    ensures
        split(s, sep).len() > 0,
        joined(split(s, sep), seq![sep]) == s,
        forall|i: int, k: int|
            0 <= i < split(s, sep).len() && 0 <= k < split(s, sep)[i].len() ==> #[trigger] split(
                s,
                sep,
            )[i][k] != sep,
    decreases s.len(),
{
    let all = split(s, sep);
    if s.len() == 0 {
        assert(joined(all, seq![sep]) =~= s);
    } else {
        let front = s.drop_last();
        law_splitting_loses_nothing(front, sep);
        let before = split(front, sep);
        assert(front.push(s.last()) =~= s);
        if s.last() == sep {
            assert(all.drop_last() =~= before);
            assert(joined(all, seq![sep]) =~= s);
            assert forall|i: int, k: int|
                0 <= i < all.len() && 0 <= k < all[i].len() implies #[trigger] all[i][k] != sep by {
                assert(all[i] == before[i]);
                assert(before[i][k] != sep);
            }
        } else {
            assert(all.drop_last() =~= before.drop_last());
            if all.len() > 1 {
                assert(joined(all, seq![sep]) =~= joined(before, seq![sep]).push(s.last()));
            }
            assert(joined(all, seq![sep]) =~= s);
            assert forall|i: int, k: int|
                0 <= i < all.len() && 0 <= k < all[i].len() implies #[trigger] all[i][k] != sep by {
                if i < all.len() - 1 {
                    assert(all[i] == before[i]);
                    assert(before[i][k] != sep);
                } else if k < before.last().len() {
                    assert(before[i][k] != sep);
                }
            }
        }
    }
}

/// Of the characters that keyboards have, the blank, the tab and what ends a line
/// or a page are white space, and no other is.
pub proof fn law_white_space_is_what_does_not_show(c: char)
    ensures
        (c as u32) < 0x80 ==> (is_white(c) <==> c == ' ' || c == '\t' || c == '\n' || c == '\r' || (
        c as u32) == 0xb || (c as u32) == 0xc),
        c == '\u{a0}' || c == '\u{3000}' || c == '\u{2003}' ==> is_white(c),
        is_white(c) ==> (c as u32) <= 0x3000,
        0x3040 <= (c as u32) ==> !is_white(c),
{
    vstd::utf8::char_u32_cast(c, c as u32);
}

/// White space is these characters and no others.
pub proof fn law_white_space_is_these_characters(c: char)
    ensures
        is_white(c) <==> seq![
            0x9u32, 0xa, 0xb, 0xc, 0xd, 0x20, 0x85, 0xa0, 0x1680, 0x2000, 0x2001, 0x2002, 0x2003,
            0x2004, 0x2005, 0x2006, 0x2007, 0x2008, 0x2009, 0x200a, 0x2028, 0x2029, 0x202f, 0x205f,
            0x3000,
        ].contains(c as u32),
{
    let all = seq![
        0x9u32, 0xa, 0xb, 0xc, 0xd, 0x20, 0x85, 0xa0, 0x1680, 0x2000, 0x2001, 0x2002, 0x2003,
        0x2004, 0x2005, 0x2006, 0x2007, 0x2008, 0x2009, 0x200a, 0x2028, 0x2029, 0x202f, 0x205f,
        0x3000,
    ];
    let n = c as u32;
    if is_white(c) {
        let at: int = if n <= 0xd {
            n - 0x9
        } else if n == 0x20 {
            5
        } else if n == 0x85 {
            6
        } else if n == 0xa0 {
            7
        } else if n == 0x1680 {
            8
        } else if n <= 0x200a {
            9 + (n - 0x2000)
        } else if n == 0x2028 {
            20
        } else if n == 0x2029 {
            21
        } else if n == 0x202f {
            22
        } else if n == 0x205f {
            23
        } else {
            24
        };
        assert(all[at] == n);
    }
}

} // verus!
