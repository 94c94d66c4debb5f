use vstd::prelude::*;
use vstd::utf8::*;

verus! {

/// The characters of a string slice, in order.
pub fn chars_of(s: &str) -> (r: Vec<char>)
    ensures
        r@ == s@,
{
    let mut r: Vec<char> = Vec::new();
    for c in it: s.chars()
        invariant
            r@ == it.seq().take(it.index() as int),
    {
        r.push(c);
    }
    r
}

/// A string made of the given characters (`FromIterator<&char>` for `String`):
/// its characters are exactly those given, in order.
#[verifier::external_body]
pub(crate) fn string_from_chars(chars: &[char]) -> (r: String)
    ensures
        r@ == chars@,
{
    chars.iter().collect()
}

/// Whether two character sequences are equal.
pub fn same_chars(a: &[char], b: &[char]) -> (r: bool)
    ensures
        r == (a@ == b@),
{
    if a.len() != b.len() {
        return false;
    }
    let mut i: usize = 0;
    while i < a.len()
        invariant
            a@.len() == b@.len(),
            i <= a@.len(),
            a@.take(i as int) == b@.take(i as int),
        decreases a@.len() - i,
    {
        if a[i] != b[i] {
            assert(a@[i as int] != b@[i as int]);
            return false;
        }
        assert(a@.take(i + 1) == a@.take(i as int).push(a@[i as int]));
        assert(b@.take(i + 1) == b@.take(i as int).push(b@[i as int]));
        i = i + 1;
    }
    assert(a@.take(i as int) == a@);
    assert(b@.take(i as int) == b@);
    true
}

/// Whether a string slice holds exactly the characters of another.
pub fn str_is(s: &str, lit: &str) -> (r: bool)
    ensures
        r == (s@ == lit@),
{
    let a = chars_of(s);
    let b = chars_of(lit);
    same_chars(a.as_slice(), b.as_slice())
}

/// The characters that `char::is_whitespace` accepts: those with the Unicode
/// property White_Space.
pub open spec fn is_white_space(c: char) -> bool {
    let u = c as u32;
    ||| u == 0x20
    ||| 0x09 <= u <= 0x0d
    ||| u == 0x85
    ||| u == 0xa0
    ||| u == 0x1680
    ||| 0x2000 <= u <= 0x200a
    ||| u == 0x2028
    ||| u == 0x2029
    ||| u == 0x202f
    ||| u == 0x205f
    ||| u == 0x3000
}

pub fn white_space(c: char) -> (r: bool)
    ensures
        r == is_white_space(c),
{
    let u = c as u32;
    u == 0x20 || (0x09 <= u && u <= 0x0d) || u == 0x85 || u == 0xa0 || u == 0x1680 || (0x2000
        <= u && u <= 0x200a) || u == 0x2028 || u == 0x2029 || u == 0x202f || u == 0x205f || u
        == 0x3000
}

/// The sequence without its leading white space.
pub open spec fn trim_start(s: Seq<char>) -> Seq<char>
    decreases s.len(),
{
    if s.len() > 0 && is_white_space(s[0]) {
        trim_start(s.drop_first())
    } else {
        s
    }
}

/// The sequence without its trailing white space.
pub open spec fn trim_end(s: Seq<char>) -> Seq<char>
    decreases s.len(),
{
    if s.len() > 0 && is_white_space(s.last()) {
        trim_end(s.drop_last())
    } else {
        s
    }
}

/// The sequence without white space at either end, as `str::trim` gives it.
pub open spec fn trim(s: Seq<char>) -> Seq<char> {
    trim_end(trim_start(s))
}

proof fn lemma_trim_start_step(s: Seq<char>, i: int)
    requires
        0 <= i < s.len(),
        is_white_space(s[i]),
    ensures
        trim_start(s.skip(i)) == trim_start(s.skip(i + 1)),
{
    assert(s.skip(i).drop_first() == s.skip(i + 1));
}

proof fn lemma_trim_end_step(s: Seq<char>, a: int, b: int)
    requires
        0 <= a < b <= s.len(),
        is_white_space(s[b - 1]),
    ensures
        trim_end(s.subrange(a, b)) == trim_end(s.subrange(a, b - 1)),
{
    assert(s.subrange(a, b).drop_last() == s.subrange(a, b - 1));
}

/// The characters of a slice without white space at either end.
pub fn trimmed(s: &[char]) -> (r: Vec<char>)
    ensures
        r@ == trim(s@),
{
    let mut a: usize = 0;
    assert(s@.skip(0) == s@);
    while a < s.len() && white_space(s[a])
        invariant
            a <= s@.len(),
            trim_start(s@) == trim_start(s@.skip(a as int)),
        decreases s@.len() - a,
    {
        proof {
            lemma_trim_start_step(s@, a as int);
        }
        a = a + 1;
    }
    let ghost start = s@.skip(a as int);
    assert(trim_start(s@) == start);
    assert(start == s@.subrange(a as int, s@.len() as int));
    let mut b: usize = s.len();
    while b > a && white_space(s[b - 1])
        invariant
            a <= b <= s@.len(),
            trim_end(start) == trim_end(s@.subrange(a as int, b as int)),
        decreases b,
    {
        proof {
            lemma_trim_end_step(s@, a as int, b as int);
        }
        b = b - 1;
    }
    let mut r: Vec<char> = Vec::new();
    let mut k: usize = a;
    while k < b
        invariant
            a <= k <= b <= s@.len(),
            r@ == s@.subrange(a as int, k as int),
        decreases b - k,
    {
        r.push(s[k]);
        assert(s@.subrange(a as int, k + 1) == s@.subrange(a as int, k as int).push(s@[k as int]));
        k = k + 1;
    }
    r
}

/// The pieces of `s` between the non-overlapping occurrences of the pattern `p`,
/// found from left to right, with `cur` already collected in front of the first
/// piece.
pub open spec fn split_from(s: Seq<char>, p: Seq<char>, cur: Seq<char>) -> Seq<Seq<char>>
    decreases s.len(),
{
    if s.len() == 0 {
        seq![cur]
    } else if p.len() > 0 && p.len() <= s.len() && s.take(p.len() as int) == p {
        seq![cur] + split_from(s.skip(p.len() as int), p, seq![])
    } else {
        split_from(s.drop_first(), p, cur.push(s[0]))
    }
}

/// The pieces of `s` between the occurrences of `p`, as `str::split` gives them.
pub open spec fn split(s: Seq<char>, p: Seq<char>) -> Seq<Seq<char>> {
    split_from(s, p, seq![])
}

/// Whether `p` occurs in `s` at position `i`.
fn occurs_at(s: &[char], p: &[char], i: usize) -> (r: bool)
    requires
        i <= s@.len(),
    ensures
        r == (p@.len() <= s@.len() - i && s@.skip(i as int).take(p@.len() as int) == p@),
{
    if p.len() > s.len() - i {
        return false;
    }
    let n = s.len();
    let mut k: usize = 0;
    while k < p.len()
        invariant
            n == s@.len(),
            i <= s@.len(),
            p@.len() <= s@.len() - i,
            k <= p@.len(),
            forall|j: int| 0 <= j < k ==> s@[i + j] == p@[j],
        decreases p@.len() - k,
    {
        assert(i + k < n);
        if s[i + k] != p[k] {
            assert(s@.skip(i as int).take(p@.len() as int)[k as int] != p@[k as int]);
            return false;
        }
        k = k + 1;
    }
    assert(s@.skip(i as int).take(p@.len() as int) == p@);
    true
}

/// The character sequences held by a sequence of vectors.
pub open spec fn views(v: Seq<Vec<char>>) -> Seq<Seq<char>> {
    v.map_values(|x: Vec<char>| x@)
}

/// The pieces of `s` between the occurrences of the non-empty pattern `p`.
pub fn split_on(s: &[char], p: &[char]) -> (r: Vec<Vec<char>>)
    requires
        p@.len() > 0,
    ensures
        views(r@) == split(s@, p@),
{
    let mut pieces: Vec<Vec<char>> = Vec::new();
    let mut cur: Vec<char> = Vec::new();
    let mut i: usize = 0;
    assert(s@.skip(0) == s@);
    while i < s.len()
        invariant
            p@.len() > 0,
            i <= s@.len(),
            split(s@, p@) == views(pieces@) + split_from(s@.skip(i as int), p@, cur@),
        decreases s@.len() - i,
    {
        let ghost rest = s@.skip(i as int);
        if occurs_at(s, p, i) {
            let ghost old_pieces = views(pieces@);
            let done = cur;
            cur = Vec::new();
            pieces.push(done);
            assert(views(pieces@) == old_pieces.push(done@));
            assert(rest.skip(p@.len() as int) == s@.skip(i + p@.len()));
            assert(split_from(rest, p@, done@) == seq![done@] + split_from(rest.skip(p@.len() as int), p@, seq![]));
            assert(cur@ == Seq::<char>::empty());
            assert(old_pieces.push(done@) + split_from(s@.skip(i + p@.len()), p@, cur@)
                == old_pieces + (seq![done@] + split_from(s@.skip(i + p@.len()), p@, cur@)));
            i = i + p.len();
        } else {
            let ghost old_cur = cur@;
            cur.push(s[i]);
            assert(rest.drop_first() == s@.skip(i + 1));
            assert(split_from(rest, p@, old_cur) == split_from(rest.drop_first(), p@, old_cur.push(rest[0])));
            i = i + 1;
        }
    }
    let ghost old_pieces = views(pieces@);
    assert(s@.skip(i as int).len() == 0);
    pieces.push(cur);
    assert(views(pieces@) == old_pieces.push(cur@));
    assert(old_pieces + seq![cur@] == old_pieces.push(cur@));
    pieces
}

/// The message that `String::from_utf8` reports, through its error's `Display`,
/// for a byte sequence that is not UTF-8. Its text is not stated here: the
/// documentation of `FromUtf8Error` does not give the output of its `Display`.
pub uninterp spec fn utf8_error_text(bytes: Seq<u8>) -> Seq<char>;

/// `String::from_utf8`: a string when the bytes are UTF-8, holding the characters
/// they encode; otherwise the text of the error that it reports.
#[verifier::external_body]
pub(crate) fn string_from_utf8(bytes: Vec<u8>) -> (r: Result<String, String>)
    ensures
        r is Ok <==> valid_utf8(bytes@),
        r matches Ok(s) ==> s@ == decode_utf8(bytes@),
        r matches Err(m) ==> m@ == utf8_error_text(bytes@),
{
    match String::from_utf8(bytes) {
        Ok(s) => Ok(s),
        Err(e) => Err(e.to_string()),
    }
}

/// The number of bytes before the first line feed (byte 10), or the length when
/// there is none.
pub open spec fn newline_index(s: Seq<u8>) -> int
    decreases s.len(),
{
    if s.len() == 0 {
        0
    } else if s[0] == 10 {
        0
    } else {
        1 + newline_index(s.drop_first())
    }
}

pub proof fn lemma_newline_index_bounds(s: Seq<u8>)
    ensures
        0 <= newline_index(s) <= s.len(),
        newline_index(s) < s.len() ==> s[newline_index(s)] == 10,
        forall|k: int| 0 <= k < newline_index(s) ==> s[k] != 10,
    decreases s.len(),
{
    if s.len() > 0 && s[0] != 10 {
        lemma_newline_index_bounds(s.drop_first());
        assert forall|k: int| 0 <= k < newline_index(s) implies s[k] != 10 by {
            if k > 0 {
                assert(s[k] == s.drop_first()[k - 1]);
            }
        }
    }
}

pub proof fn lemma_newline_index_is(s: Seq<u8>, k: int)
    requires
        0 <= k <= s.len(),
        k < s.len() ==> s[k] == 10,
        forall|m: int| 0 <= m < k ==> s[m] != 10,
    ensures
        newline_index(s) == k,
    decreases s.len(),
{
    if s.len() > 0 && s[0] != 10 {
        assert forall|m: int| 0 <= m < k - 1 implies s.drop_first()[m] != 10 by {
            assert(s.drop_first()[m] == s[m + 1]);
        }
        lemma_newline_index_is(s.drop_first(), k - 1);
    }
}

/// The text of one line: `None` when its bytes are not UTF-8, else the characters
/// they encode, without the carriage return that precedes the line feed ending it.
pub open spec fn line_text(bytes: Seq<u8>, terminated: bool) -> Option<Seq<char>> {
    if valid_utf8(bytes) {
        let d = decode_utf8(bytes);
        if terminated && d.len() > 0 && d.last() == '\r' {
            Some(d.drop_last())
        } else {
            Some(d)
        }
    } else {
        None
    }
}

/// The lines of a byte stream, as `BufRead::lines` yields them: split at each line
/// feed, a final line feed ending the last line rather than starting an empty one.
pub open spec fn text_lines(s: Seq<u8>) -> Seq<Option<Seq<char>>>
    decreases s.len(),
{
    if s.len() == 0 {
        seq![]
    } else {
        let j = newline_index(s);
        proof {
            lemma_newline_index_bounds(s);
        }
        if j < s.len() {
            seq![line_text(s.take(j), true)] + text_lines(s.skip(j + 1))
        } else {
            seq![line_text(s, false)]
        }
    }
}

/// The character sequences held by a sequence of optional vectors.
pub open spec fn line_views(v: Seq<Option<Vec<char>>>) -> Seq<Option<Seq<char>>> {
    v.map_values(
        |o: Option<Vec<char>>|
            match o {
                Some(x) => Some(x@),
                None => None,
            },
    )
}

/// The text of one line of bytes (see `line_text`).
fn decode_line(s: &[u8], start: usize, end: usize, terminated: bool) -> (r: Option<Vec<char>>)
    requires
        start <= end <= s@.len(),
    ensures
        line_views(seq![r]) == seq![line_text(s@.subrange(start as int, end as int), terminated)],
{
    let mut seg: Vec<u8> = Vec::new();
    let mut k: usize = start;
    while k < end
        invariant
            start <= k <= end <= s@.len(),
            seg@ == s@.subrange(start as int, k as int),
        decreases end - k,
    {
        seg.push(s[k]);
        assert(s@.subrange(start as int, k + 1) == s@.subrange(start as int, k as int).push(
            s@[k as int],
        ));
        k = k + 1;
    }
    let ghost bytes = seg@;
    match string_from_utf8(seg) {
        Ok(text) => {
            let mut chars = chars_of(text.as_str());
            let n = chars.len();
            if terminated && n > 0 && chars[n - 1] == '\r' {
                chars.pop();
                assert(chars@ == decode_utf8(bytes).drop_last());
            }
            let r = Some(chars);
            assert(line_views(seq![r]) =~= seq![line_text(bytes, terminated)]);
            r
        },
        Err(_) => {
            let r: Option<Vec<char>> = None;
            assert(line_views(seq![r]) =~= seq![line_text(bytes, terminated)]);
            r
        },
    }
}

/// The lines of a byte stream (see `text_lines`).
pub fn read_lines(s: &[u8]) -> (r: Vec<Option<Vec<char>>>)
    ensures
        line_views(r@) == text_lines(s@),
{
    let n = s.len();
    let mut lines: Vec<Option<Vec<char>>> = Vec::new();
    let mut start: usize = 0;
    assert(s@.skip(0) == s@);
    while start < n
        invariant
            n == s@.len(),
            start <= n,
            text_lines(s@) == line_views(lines@) + text_lines(s@.skip(start as int)),
        decreases n - start,
    {
        let mut j: usize = start;
        while j < n && s[j] != 10
            invariant
                n == s@.len(),
                start <= j <= n,
                forall|m: int| start <= m < j ==> s@[m] != 10,
            decreases n - j,
        {
            j = j + 1;
        }
        let ghost rest = s@.skip(start as int);
        proof {
            assert forall|m: int| 0 <= m < j - start implies rest[m] != 10 by {
                assert(rest[m] == s@[start + m]);
            }
            lemma_newline_index_is(rest, j - start);
            assert(rest.take(j - start) == s@.subrange(start as int, j as int));
        }
        let terminated = j < n;
        let line = decode_line(s, start, j, terminated);
        let ghost before = line_views(lines@);
        lines.push(line);
        assert(line_views(lines@) =~= before + line_views(seq![line]));
        if terminated {
            assert(rest.skip(j - start + 1) == s@.skip(j + 1));
            start = j + 1;
        } else {
            assert(rest == s@.subrange(start as int, j as int));
            assert(s@.skip(n as int) =~= Seq::<u8>::empty());
            start = n;
        }
    }
    assert(s@.skip(start as int) =~= Seq::<u8>::empty());
    assert(line_views(lines@) + Seq::<Option<Seq<char>>>::empty() == line_views(lines@));
    lines
}

/// The message of the I/O error that reading a line reports when the line is not
/// UTF-8.
pub open spec fn invalid_utf8_line_text() -> Seq<char> {
    "stream did not contain valid UTF-8"@
}

pub fn invalid_utf8_line_message() -> (r: String)
    ensures
        r@ == invalid_utf8_line_text(),
{
    "stream did not contain valid UTF-8".to_owned()
}

/// Appends the characters of a string slice.
pub fn push_str(out: &mut Vec<char>, s: &str)
    ensures
        final(out)@ == old(out)@ + s@,
{
    let cs = chars_of(s);
    let mut i: usize = 0;
    while i < cs.len()
        invariant
            i <= cs@.len(),
            out@ == old(out)@ + cs@.take(i as int),
        decreases cs@.len() - i,
    {
        out.push(cs[i]);
        assert(cs@.take(i + 1) == cs@.take(i as int).push(cs@[i as int]));
        i = i + 1;
    }
    assert(cs@.take(i as int) == cs@);
}

/// Appends the characters of a slice.
pub fn push_chars(out: &mut Vec<char>, cs: &[char])
    ensures
        final(out)@ == old(out)@ + cs@,
{
    let mut i: usize = 0;
    while i < cs.len()
        invariant
            i <= cs@.len(),
            out@ == old(out)@ + cs@.take(i as int),
        decreases cs@.len() - i,
    {
        out.push(cs[i]);
        assert(cs@.take(i + 1) == cs@.take(i as int).push(cs@[i as int]));
        i = i + 1;
    }
    assert(cs@.take(i as int) == cs@);
}

/// The bytes of UTF-8 text.
pub fn utf8_bytes(text: &[char]) -> (r: Vec<u8>)
    ensures
        r@ == encode_utf8(text@),
{
    let s = string_from_chars(text);
    vstd::slice::slice_to_vec(s.as_str().as_bytes())
}

/// Whether the character `c` does not occur in `s`.
pub open spec fn lacks(s: Seq<char>, c: char) -> bool {
    forall|i: int| 0 <= i < s.len() ==> s[i] != c
}

pub broadcast proof fn lemma_lacks_concat(a: Seq<char>, b: Seq<char>, c: char)
    requires
        lacks(a, c),
        lacks(b, c),
    ensures
        #[trigger] lacks(a + b, c),
{
    assert forall|i: int| 0 <= i < (a + b).len() implies (a + b)[i] != c by {
        if i < a.len() {
            assert((a + b)[i] == a[i]);
        } else {
            assert((a + b)[i] == b[i - a.len()]);
        }
    }
}

/// Whether a line holds no line feed.
pub open spec fn no_newline(l: Seq<char>) -> bool {
    lacks(l, '\n')
}

/// Whether a line is read back as itself once written with a line feed after it:
/// it holds no line feed and does not end with a carriage return.
pub open spec fn plain_line(l: Seq<char>) -> bool {
    no_newline(l) && !(l.len() > 0 && l.last() == '\r')
}

/// Lines, each followed by a line feed.
pub open spec fn joined(ls: Seq<Seq<char>>) -> Seq<char>
    decreases ls.len(),
{
    if ls.len() == 0 {
        seq![]
    } else {
        ls[0] + seq!['\n'] + joined(ls.drop_first())
    }
}

pub proof fn lemma_joined_single(l: Seq<char>)
    ensures
        joined(seq![l]) == l + seq!['\n'],
{
    let one = seq![l];
    assert(one.drop_first() =~= Seq::<Seq<char>>::empty());
    assert(joined(one.drop_first()) == Seq::<char>::empty());
    assert(joined(one) =~= l + seq!['\n']);
}

pub proof fn lemma_joined_concat(a: Seq<Seq<char>>, b: Seq<Seq<char>>)
    ensures
        joined(a + b) == joined(a) + joined(b),
    decreases a.len(),
{
    if a.len() == 0 {
        assert(a + b =~= b);
        assert(joined(a) + joined(b) =~= joined(b));
    } else {
        assert((a + b).drop_first() =~= a.drop_first() + b);
        lemma_joined_concat(a.drop_first(), b);
        assert((a + b)[0] == a[0]);
        assert(joined(a + b) =~= joined(a) + joined(b));
    }
}

pub proof fn lemma_encode_concat(a: Seq<char>, b: Seq<char>)
    ensures
        encode_utf8(a + b) == encode_utf8(a) + encode_utf8(b),
    decreases a.len(),
{
    if a.len() == 0 {
        assert(a + b =~= b);
        assert(encode_utf8(a) + encode_utf8(b) =~= encode_utf8(b));
    } else {
        assert((a + b).drop_first() =~= a.drop_first() + b);
        assert((a + b)[0] == a[0]);
        lemma_encode_concat(a.drop_first(), b);
        assert(encode_utf8(a + b) =~= encode_utf8(a) + encode_utf8(b));
    }
}

/// No byte of the encoding of a character is an ASCII byte other than the character
/// itself: the bytes of a longer encoding all have their high bit set.
proof fn lemma_scalar_avoids(c: char, b: u8)
    requires
        b < 0x80,
        c as u32 != b as u32,
    ensures
        forall|j: int| 0 <= j < encode_scalar(c as u32).len() ==> #[trigger] encode_scalar(c as u32)[j] != b,
{
    let u = c as u32;
    vstd::utf8::char_is_scalar(c);
    if has_width_1_encoding(u) {
        assert((u & 0x7f) as u8 != b) by (bit_vector)
            requires
                u <= 0x7f,
                u != b as u32,
        ;
    } else if has_width_2_encoding(u) {
        assert(0xC0 | ((u >> 6) & 0x1F) as u8 != b) by (bit_vector)
            requires
                b < 0x80,
        ;
        assert(0x80 | (u & 0x3F) as u8 != b) by (bit_vector)
            requires
                b < 0x80,
        ;
    } else if has_width_3_encoding(u) {
        assert(0xE0 | ((u >> 12) & 0x0F) as u8 != b) by (bit_vector)
            requires
                b < 0x80,
        ;
        assert(0x80 | ((u >> 6) & 0x3F) as u8 != b) by (bit_vector)
            requires
                b < 0x80,
        ;
        assert(0x80 | (u & 0x3F) as u8 != b) by (bit_vector)
            requires
                b < 0x80,
        ;
    } else {
        assert(0xF0 | ((u >> 18) & 0x7) as u8 != b) by (bit_vector)
            requires
                b < 0x80,
        ;
        assert(0x80 | ((u >> 12) & 0x3F) as u8 != b) by (bit_vector)
            requires
                b < 0x80,
        ;
        assert(0x80 | ((u >> 6) & 0x3F) as u8 != b) by (bit_vector)
            requires
                b < 0x80,
        ;
        assert(0x80 | (u & 0x3F) as u8 != b) by (bit_vector)
            requires
                b < 0x80,
        ;
    }
}

proof fn lemma_scalar_no_newline(c: char)
    requires
        c != '\n',
    ensures
        forall|j: int| 0 <= j < encode_scalar(c as u32).len() ==> #[trigger] encode_scalar(c as u32)[j] != 10,
{
    if c as u32 == 10 {
        vstd::utf8::char_u32_cast(c, 10u32);
        assert((10u32 as char) == '\n');
    }
    lemma_scalar_avoids(c, 10);
}

pub proof fn lemma_encode_no_newline(l: Seq<char>)
    requires
        no_newline(l),
    ensures
        forall|j: int| 0 <= j < encode_utf8(l).len() ==> encode_utf8(l)[j] != 10,
    decreases l.len(),
{
    if l.len() > 0 {
        assert(no_newline(l.drop_first())) by {
            assert forall|i: int| 0 <= i < l.drop_first().len() implies l.drop_first()[i] != '\n' by {
                assert(l.drop_first()[i] == l[i + 1]);
            }
        }
        lemma_encode_no_newline(l.drop_first());
        lemma_scalar_no_newline(l[0]);
        let e = encode_utf8(l);
        let h = encode_scalar(l[0] as u32);
        let t = encode_utf8(l.drop_first());
        assert(e == h + t);
        assert forall|j: int| 0 <= j < e.len() implies e[j] != 10 by {
            if j < h.len() {
                assert(e[j] == h[j]);
            } else {
                assert(e[j] == t[j - h.len()]);
            }
        }
    }
}

proof fn lemma_encode_newline()
    ensures
        encode_utf8(seq!['\n']) == seq![10u8],
{
    let s = seq!['\n'];
    assert(s.drop_first() =~= Seq::<char>::empty());
    assert(('\n' as u32) == 10);
    assert((10u32 & 0x7f) as u8 == 10) by (bit_vector);
    assert(leading_byte_width_1(10u32) == 10u8);
    assert(encode_scalar(10u32) =~= seq![10u8]);
    assert(encode_utf8(s.drop_first()) =~= Seq::<u8>::empty());
    assert(s[0] as u32 == 10u32);
    assert(encode_utf8(s) == encode_scalar(10u32) + encode_utf8(s.drop_first()));
    assert(encode_utf8(s) =~= seq![10u8]);
}

/// A plain line written with a line feed after it is read back as the first line,
/// whatever follows.
pub proof fn lemma_line_roundtrip(l: Seq<char>, rest: Seq<char>)
    requires
        plain_line(l),
    ensures
        text_lines(encode_utf8(l + seq!['\n'] + rest)) == seq![Some(l)] + text_lines(
            encode_utf8(rest),
        ),
{
    let el = encode_utf8(l);
    lemma_encode_concat(l + seq!['\n'], rest);
    lemma_encode_concat(l, seq!['\n']);
    lemma_encode_newline();
    let s = encode_utf8(l + seq!['\n'] + rest);
    assert(s == el + seq![10u8] + encode_utf8(rest));
    lemma_encode_no_newline(l);
    assert forall|m: int| 0 <= m < el.len() implies s[m] != 10 by {
        assert(s[m] == el[m]);
    }
    assert(s[el.len() as int] == 10);
    lemma_newline_index_is(s, el.len() as int);
    assert(s.take(el.len() as int) =~= el);
    assert(s.skip(el.len() as int + 1) =~= encode_utf8(rest));
    vstd::utf8::encode_utf8_valid_utf8(l);
    vstd::utf8::encode_utf8_decode_utf8(l);
    assert(line_text(el, true) == Some(l));
}

/// The encoding of a single ASCII character is its one byte.
proof fn lemma_encode_ascii(c: char, b: u8)
    requires
        c as u32 == b as u32,
        b < 0x80,
    ensures
        encode_utf8(seq![c]) == seq![b],
{
    let s = seq![c];
    let u = c as u32;
    assert(s.drop_first() =~= Seq::<char>::empty());
    assert((u & 0x7f) as u8 == b) by (bit_vector)
        requires
            u == b as u32,
            b < 0x80,
    ;
    assert(encode_scalar(u) =~= seq![b]);
    assert(s[0] as u32 == u);
    assert(encode_utf8(s) == encode_scalar(u) + encode_utf8(s.drop_first()));
    assert(encode_utf8(s) =~= seq![b]);
}

/// UTF-8 bytes that do not end with a carriage return byte do not decode to text
/// that ends with a carriage return.
proof fn lemma_decoded_last(s: Seq<u8>)
    requires
        valid_utf8(s),
        s.len() > 0,
        s.last() != 13,
    ensures
        decode_utf8(s).len() > 0,
        decode_utf8(s).last() != '\r',
{
    let d = decode_utf8(s);
    decode_utf8_encode_utf8(s);
    if d.len() == 0 {
        assert(encode_utf8(d) =~= Seq::<u8>::empty());
    } else if d.last() == '\r' {
        assert(d =~= d.drop_last() + seq!['\r']);
        lemma_encode_concat(d.drop_last(), seq!['\r']);
        lemma_encode_ascii('\r', 13);
        let e = encode_utf8(d.drop_last());
        assert(s == e + seq![13u8]);
        assert(s.last() == 13);
    }
}

/// Text written with a line feed after it is encoded as the text's bytes and the
/// byte of the line feed.
pub proof fn lemma_encode_push_newline(x: Seq<char>)
    ensures
        encode_utf8(x + seq!['\n']) == encode_utf8(x).push(10),
{
    lemma_encode_concat(x, seq!['\n']);
    lemma_encode_ascii('\n', 10);
    assert(encode_utf8(x) + seq![10u8] =~= encode_utf8(x).push(10));
}

/// Text that ends with neither a line feed nor a carriage return is encoded as
/// bytes that end with neither of their bytes.
pub proof fn lemma_encode_line_end(x: Seq<char>)
    requires
        x.len() > 0,
        x.last() != '\n',
        x.last() != '\r',
    ensures
        encode_utf8(x).len() > 0,
        encode_utf8(x).last() != 10,
        encode_utf8(x).last() != 13,
{
    let c = x.last();
    let one = seq![c];
    assert(x =~= x.drop_last() + one);
    lemma_encode_concat(x.drop_last(), one);
    assert(one.drop_first() =~= Seq::<char>::empty());
    assert(encode_utf8(one) == encode_scalar(c as u32) + encode_utf8(one.drop_first()));
    let e = encode_scalar(c as u32);
    assert(encode_utf8(one) =~= e);
    vstd::utf8::char_is_scalar(c);
    assert(e.len() > 0);
    if c as u32 == 10 {
        vstd::utf8::char_u32_cast(c, 10u32);
        assert((10u32 as char) == '\n');
    }
    if c as u32 == 13 {
        vstd::utf8::char_u32_cast(c, 13u32);
        assert((13u32 as char) == '\r');
    }
    lemma_scalar_avoids(c, 10);
    lemma_scalar_avoids(c, 13);
    let all = encode_utf8(x.drop_last()) + e;
    assert(all.last() == e[e.len() - 1]);
}

/// A line ended by a carriage return and a line feed is read without either: the
/// text before them, when it holds no line feed, is the first line, whatever
/// follows.
pub proof fn law_crlf_line(l: Seq<char>, rest: Seq<char>)
    requires
        no_newline(l),
    ensures
        text_lines(encode_utf8(l + seq!['\r', '\n'] + rest)) == seq![Some(l)] + text_lines(
            encode_utf8(rest),
        ),
{
    let lc = l + seq!['\r'];
    assert(l + seq!['\r', '\n'] + rest =~= lc + seq!['\n'] + rest);
    assert(no_newline(lc)) by {
        assert forall|i: int| 0 <= i < lc.len() implies lc[i] != '\n' by {
            if i < l.len() {
                assert(lc[i] == l[i]);
            }
        }
    }
    let el = encode_utf8(lc);
    lemma_encode_concat(lc + seq!['\n'], rest);
    lemma_encode_concat(lc, seq!['\n']);
    lemma_encode_newline();
    let s = encode_utf8(lc + seq!['\n'] + rest);
    assert(s == el + seq![10u8] + encode_utf8(rest));
    lemma_encode_no_newline(lc);
    assert forall|m: int| 0 <= m < el.len() implies s[m] != 10 by {
        assert(s[m] == el[m]);
    }
    assert(s[el.len() as int] == 10);
    lemma_newline_index_is(s, el.len() as int);
    assert(s.take(el.len() as int) =~= el);
    assert(s.skip(el.len() as int + 1) =~= encode_utf8(rest));
    vstd::utf8::encode_utf8_valid_utf8(lc);
    vstd::utf8::encode_utf8_decode_utf8(lc);
    assert(lc.drop_last() =~= l);
    assert(line_text(el, true) == Some(l));
}

/// Every byte of a stream belongs to a line: a last line that no line feed ends is
/// read as one. A stream that does not end with a line feed (nor with a carriage
/// return, which a line feed after it would take away) has the same lines as the
/// stream with a line feed added at its end.
pub proof fn law_last_line_kept(s: Seq<u8>)
    requires
        s.len() > 0,
        s.last() != 10,
        s.last() != 13,
    ensures
        text_lines(s.push(10)) == text_lines(s),
    decreases s.len(),
{
    let t = s.push(10);
    lemma_newline_index_bounds(s);
    let j = newline_index(s);
    if j < s.len() {
        assert forall|m: int| 0 <= m < j implies t[m] != 10 by {
            assert(t[m] == s[m]);
        }
        assert(t[j] == s[j]);
        lemma_newline_index_is(t, j);
        assert(t.take(j) =~= s.take(j));
        assert(j < s.len() - 1);
        let rest = s.skip(j + 1);
        assert(t.skip(j + 1) =~= rest.push(10));
        assert(rest.last() == s.last());
        law_last_line_kept(rest);
    } else {
        assert forall|m: int| 0 <= m < s.len() implies t[m] != 10 by {
            assert(t[m] == s[m]);
        }
        lemma_newline_index_is(t, s.len() as int);
        assert(t.take(s.len() as int) =~= s);
        assert(t.skip(s.len() as int + 1) =~= Seq::<u8>::empty());
        if valid_utf8(s) {
            lemma_decoded_last(s);
        }
        assert(line_text(s, true) == line_text(s, false));
        assert(text_lines(Seq::<u8>::empty()) == Seq::<Option<Seq<char>>>::empty());
        assert(newline_index(t) == s.len());
        assert(text_lines(t) == seq![line_text(t.take(s.len() as int), true)] + text_lines(
            t.skip(s.len() as int + 1),
        ));
        assert(text_lines(s) == seq![line_text(s, false)]);
        assert(text_lines(t) =~= text_lines(s));
    }
}

/// Plain lines, each written with a line feed after it, are read back as they are.
pub proof fn lemma_joined_roundtrip(ls: Seq<Seq<char>>)
    requires
        forall|i: int| 0 <= i < ls.len() ==> plain_line(#[trigger] ls[i]),
    ensures
        text_lines(encode_utf8(joined(ls))) == ls.map_values(|l: Seq<char>| Some(l)),
    decreases ls.len(),
{
    if ls.len() == 0 {
        assert(encode_utf8(joined(ls)) =~= Seq::<u8>::empty());
        assert(ls.map_values(|l: Seq<char>| Some(l)) =~= Seq::<Option<Seq<char>>>::empty());
    } else {
        let rest = ls.drop_first();
        assert forall|i: int| 0 <= i < rest.len() implies plain_line(#[trigger] rest[i]) by {
            assert(rest[i] == ls[i + 1]);
        }
        lemma_joined_roundtrip(rest);
        assert(plain_line(ls[0]));
        lemma_line_roundtrip(ls[0], joined(rest));
        assert(joined(ls) == ls[0] + seq!['\n'] + joined(rest));
        assert(ls.map_values(|l: Seq<char>| Some(l)) =~= seq![Some(ls[0])] + rest.map_values(
            |l: Seq<char>| Some(l),
        ));
    }
}

/// A pattern whose first character does not occur in `a`: the piece `a` is cut off
/// at the pattern that follows it.
pub proof fn lemma_split_first(a: Seq<char>, p: Seq<char>, b: Seq<char>, cur: Seq<char>)
    requires
        p.len() > 0,
        forall|i: int| 0 <= i < a.len() ==> a[i] != p[0],
    ensures
        split_from(a + p + b, p, cur) == seq![cur + a] + split_from(b, p, seq![]),
    decreases a.len(),
{
    let s = a + p + b;
    if a.len() == 0 {
        assert(s =~= p + b);
        assert(s.take(p.len() as int) =~= p);
        assert(s.skip(p.len() as int) =~= b);
        assert(cur + a =~= cur);
    } else {
        assert(s[0] == a[0]);
        assert(s.take(p.len() as int)[0] == a[0]);
        assert(s.drop_first() =~= a.drop_first() + p + b);
        assert forall|i: int| 0 <= i < a.drop_first().len() implies a.drop_first()[i] != p[0] by {
            assert(a.drop_first()[i] == a[i + 1]);
        }
        lemma_split_first(a.drop_first(), p, b, cur.push(a[0]));
        assert(cur.push(a[0]) + a.drop_first() =~= cur + a);
    }
}

/// Where the first character of the pattern does not occur, nothing is split.
pub proof fn lemma_split_none(v: Seq<char>, p: Seq<char>, cur: Seq<char>)
    requires
        p.len() > 0,
        forall|i: int| 0 <= i < v.len() ==> v[i] != p[0],
    ensures
        split_from(v, p, cur) == seq![cur + v],
    decreases v.len(),
{
    if v.len() == 0 {
        assert(cur + v =~= cur);
    } else {
        if p.len() <= v.len() {
            assert(v.take(p.len() as int)[0] == v[0]);
        }
        assert forall|i: int| 0 <= i < v.drop_first().len() implies v.drop_first()[i] != p[0] by {
            assert(v.drop_first()[i] == v[i + 1]);
        }
        lemma_split_none(v.drop_first(), p, cur.push(v[0]));
        assert(cur.push(v[0]) + v.drop_first() =~= cur + v);
    }
}

/// Whether the pattern `p` stands in `v` at position `i`.
pub open spec fn pattern_at(v: Seq<char>, p: Seq<char>, i: int) -> bool {
    v.subrange(i, i + p.len()) == p
}

/// Where the pattern does not occur, nothing is split.
pub proof fn lemma_split_absent(v: Seq<char>, p: Seq<char>, cur: Seq<char>)
    requires
        p.len() > 0,
        forall|i: int| 0 <= i && i + p.len() <= v.len() ==> !#[trigger] pattern_at(v, p, i),
    ensures
        split_from(v, p, cur) == seq![cur + v],
    decreases v.len(),
{
    if v.len() == 0 {
        assert(cur + v =~= cur);
    } else {
        if p.len() <= v.len() {
            assert(v.subrange(0, p.len() as int) == v.take(p.len() as int));
            assert(!pattern_at(v, p, 0));
        }
        assert forall|i: int| 0 <= i && i + p.len() <= v.drop_first().len() implies !#[trigger] pattern_at(v.drop_first(), p, i) by {
            assert(v.drop_first().subrange(i, i + p.len()) =~= v.subrange(i + 1, i + 1 + p.len()));
            assert(!pattern_at(v, p, i + 1));
        }
        lemma_split_absent(v.drop_first(), p, cur.push(v[0]));
        assert(cur.push(v[0]) + v.drop_first() =~= cur + v);
    }
}

/// A sequence that neither starts nor ends with white space is its own trim.
pub proof fn lemma_trim_plain(s: Seq<char>)
    requires
        s.len() > 0 ==> !is_white_space(s[0]) && !is_white_space(s.last()),
    ensures
        trim(s) == s,
{
}

/// Fields with the separator `sep` between each two of them.
pub open spec fn sep_join(fs: Seq<Seq<char>>, sep: Seq<char>) -> Seq<char>
    decreases fs.len(),
{
    if fs.len() == 0 {
        seq![]
    } else if fs.len() == 1 {
        fs[0]
    } else {
        fs[0] + sep + sep_join(fs.drop_first(), sep)
    }
}

/// Fields that do not hold the first character of the separator are split apart
/// again at it.
pub proof fn lemma_split_sep_join(fs: Seq<Seq<char>>, p: Seq<char>)
    requires
        fs.len() >= 1,
        p.len() > 0,
        forall|i: int| 0 <= i < fs.len() ==> lacks(#[trigger] fs[i], p[0]),
    ensures
        split(sep_join(fs, p), p) == fs,
    decreases fs.len(),
{
    let empty = Seq::<char>::empty();
    if fs.len() == 1 {
        assert(lacks(fs[0], p[0]));
        lemma_split_none(fs[0], p, empty);
        assert(empty + fs[0] =~= fs[0]);
        assert(seq![fs[0]] =~= fs);
    } else {
        let rest = fs.drop_first();
        assert forall|i: int| 0 <= i < rest.len() implies lacks(#[trigger] rest[i], p[0]) by {
            assert(rest[i] == fs[i + 1]);
        }
        lemma_split_sep_join(rest, p);
        assert(lacks(fs[0], p[0]));
        lemma_split_first(fs[0], p, sep_join(rest, p), empty);
        assert(empty + fs[0] =~= fs[0]);
        assert(seq![fs[0]] + rest =~= fs);
    }
}

/// Fields and a separator that lack a character make a line that lacks it.
pub proof fn lemma_sep_join_lacks(fs: Seq<Seq<char>>, p: Seq<char>, c: char)
    requires
        lacks(p, c),
        forall|i: int| 0 <= i < fs.len() ==> lacks(#[trigger] fs[i], c),
    ensures
        lacks(sep_join(fs, p), c),
    decreases fs.len(),
{
    broadcast use lemma_lacks_concat;

    if fs.len() == 1 {
        assert(lacks(fs[0], c));
    } else if fs.len() > 1 {
        let rest = fs.drop_first();
        assert forall|i: int| 0 <= i < rest.len() implies lacks(#[trigger] rest[i], c) by {
            assert(rest[i] == fs[i + 1]);
        }
        lemma_sep_join_lacks(rest, p, c);
        assert(lacks(fs[0], c));
    }
}

/// The last field closes the line.
pub proof fn lemma_sep_join_last(fs: Seq<Seq<char>>, p: Seq<char>)
    requires
        fs.len() >= 2,
    ensures
        sep_join(fs, p) == sep_join(fs.drop_last(), p) + p + fs.last(),
    decreases fs.len(),
{
    if fs.len() == 2 {
        assert(fs.drop_first().len() == 1);
        assert(fs.drop_last().len() == 1);
        assert(sep_join(fs.drop_first(), p) == fs[1]);
        assert(sep_join(fs.drop_last(), p) == fs[0]);
    } else {
        let rest = fs.drop_first();
        lemma_sep_join_last(rest, p);
        assert(rest.drop_last() =~= fs.drop_last().drop_first());
        assert(fs.drop_last()[0] == fs[0]);
        assert(sep_join(fs, p) =~= sep_join(fs.drop_last(), p) + p + fs.last());
    }
}

/// Appends fields with the separator between each two of them.
pub fn push_joined(out: &mut Vec<char>, fields: &Vec<Vec<char>>, sep: &[char])
    requires
        fields@.len() >= 1,
    ensures
        final(out)@ == old(out)@ + sep_join(views(fields@), sep@),
{
    let ghost fs = views(fields@);
    push_chars(out, fields[0].as_slice());
    assert(fs.take(1) =~= seq![fs[0]]);
    let mut k: usize = 1;
    while k < fields.len()
        invariant
            fs == views(fields@),
            1 <= k <= fields@.len(),
            out@ == old(out)@ + sep_join(fs.take(k as int), sep@),
        decreases fields@.len() - k,
    {
        push_chars(out, sep);
        push_chars(out, fields[k].as_slice());
        proof {
            lemma_sep_join_last(fs.take(k + 1), sep@);
            assert(fs.take(k + 1).drop_last() =~= fs.take(k as int));
            assert(fs.take(k + 1).last() == fields@[k as int]@);
        }
        assert(out@ =~= old(out)@ + sep_join(fs.take(k + 1), sep@));
        k = k + 1;
    }
    assert(fs.take(k as int) =~= fs);
}

/// Appends lines, each followed by a line feed.
pub fn push_lines(out: &mut Vec<char>, lines: &Vec<Vec<char>>)
    ensures
        final(out)@ == old(out)@ + joined(views(lines@)),
{
    let ghost ls = views(lines@);
    assert(ls.take(0) =~= Seq::<Seq<char>>::empty());
    let mut k: usize = 0;
    while k < lines.len()
        invariant
            ls == views(lines@),
            k <= lines@.len(),
            out@ == old(out)@ + joined(ls.take(k as int)),
        decreases lines@.len() - k,
    {
        push_chars(out, lines[k].as_slice());
        out.push('\n');
        proof {
            assert(ls.take(k + 1) =~= ls.take(k as int) + seq![ls[k as int]]);
            lemma_joined_concat(ls.take(k as int), seq![ls[k as int]]);
            lemma_joined_single(ls[k as int]);
        }
        assert(out@ =~= old(out)@ + joined(ls.take(k + 1)));
        k = k + 1;
    }
    assert(ls.take(k as int) =~= ls);
}

proof fn lemma_trim_start_shape(s: Seq<char>)
    ensures
        trim_start(s).len() <= s.len(),
        trim_start(s).len() == s.len() ==> trim_start(s) == s,
        s.len() > 0 && is_white_space(s[0]) ==> trim_start(s).len() < s.len(),
    decreases s.len(),
{
    if s.len() > 0 && is_white_space(s[0]) {
        lemma_trim_start_shape(s.drop_first());
    }
}

proof fn lemma_trim_end_shape(s: Seq<char>)
    ensures
        trim_end(s).len() <= s.len(),
        s.len() > 0 && is_white_space(s.last()) ==> trim_end(s).len() < s.len(),
    decreases s.len(),
{
    if s.len() > 0 && is_white_space(s.last()) {
        lemma_trim_end_shape(s.drop_last());
    }
}

/// A sequence that is its own trim neither starts nor ends with white space.
pub proof fn lemma_trim_fixed(s: Seq<char>)
    requires
        trim(s) == s,
        s.len() > 0,
    ensures
        !is_white_space(s[0]),
        !is_white_space(s.last()),
{
    lemma_trim_start_shape(s);
    lemma_trim_end_shape(trim_start(s));
    if is_white_space(s[0]) {
        assert(trim(s).len() < s.len());
    }
    assert(trim_start(s) == s);
    if is_white_space(s.last()) {
        assert(trim(s).len() < s.len());
    }
}

/// Where the pattern's first character does not occur, the pattern does not occur.
pub proof fn lemma_absent_when_lacking(v: Seq<char>, p: Seq<char>)
    requires
        p.len() > 0,
        lacks(v, p[0]),
    ensures
        forall|i: int| 0 <= i && i + p.len() <= v.len() ==> !#[trigger] pattern_at(v, p, i),
{
    assert forall|i: int| 0 <= i && i + p.len() <= v.len() implies !#[trigger] pattern_at(v, p, i) by {
        assert(v.subrange(i, i + p.len())[0] == v[i]);
    }
}

} // verus!
