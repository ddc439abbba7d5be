//! Text as sequences of characters: trimming, splitting, numbers and UTF-8 size.
use vstd::prelude::*;

verus! {

/// `String::push` appends one character to the end of the string.
pub assume_specification[ String::push ](s: &mut String, c: char)
    ensures
        final(s)@ == old(s)@.push(c),
;

/// A set of characters that can be trimmed or split at.
#[derive(Clone, Copy)]
pub enum Charset {
    /// The Unicode `White_Space` property.
    White,
    /// White space or a full stop.
    WhiteOrDot,
    /// One given character.
    One(char),
}

/// The characters with the Unicode `White_Space` property.
pub open spec fn white_space(c: char) -> bool {
    let u = c as u32;
    ||| 0x09 <= u <= 0x0d
    ||| u == 0x20
    ||| u == 0x85
    ||| u == 0xa0
    ||| u == 0x1680
    ||| 0x2000 <= u <= 0x200a
    ||| u == 0x2028
    ||| u == 0x2029
    ||| u == 0x202f
    ||| u == 0x205f
    ||| u == 0x3000
}

/// The control codes, Unicode category `Cc`.
pub open spec fn control(c: char) -> bool {
    (c as u32) <= 0x1f || 0x7f <= (c as u32) <= 0x9f
}

/// Membership in a set of characters.
pub open spec fn member(set: Charset, c: char) -> bool {
    match set {
        Charset::White => white_space(c),
        Charset::WhiteOrDot => white_space(c) || c == '.',
        Charset::One(d) => c == d,
    }
}

/// Whether `c` is white space.
pub fn is_white_space(c: char) -> (b: bool)
    ensures
        b == white_space(c),
{
    let u: u32 = c as u32;
    (0x09 <= u && u <= 0x0d) || u == 0x20 || u == 0x85 || u == 0xa0 || u == 0x1680 || (0x2000 <= u
        && u <= 0x200a) || u == 0x2028 || u == 0x2029 || u == 0x202f || u == 0x205f || u == 0x3000
}

/// Whether `c` is a control code.
pub fn is_control(c: char) -> (b: bool)
    ensures
        b == control(c),
{
    let u: u32 = c as u32;
    u <= 0x1f || (0x7f <= u && u <= 0x9f)
}

impl Charset {
    /// Whether `c` belongs to the set.
    pub fn has(self, c: char) -> (b: bool)
        ensures
            b == member(self, c),
    {
        match self {
            Charset::White => is_white_space(c),
            Charset::WhiteOrDot => is_white_space(c) || c == '.',
            Charset::One(d) => c == d,
        }
    }
}

// ---------------------------------------------------------------------------
// Conversions
// ---------------------------------------------------------------------------

/// The characters of a string.
pub fn chars_of(s: &str) -> (r: Vec<char>)
    ensures
        r@ == s@,
{
    let mut out: Vec<char> = Vec::new();
    for c in it: s.chars()
        invariant
            it.seq() == s@,
            out@ == it.seq().take(it.index() as int),
    {
        out.push(c);
        assert(it.seq().take(it.index() as int + 1) =~= it.seq().take(it.index() as int).push(c));
    }
    assert(s@.take(s@.len() as int) =~= s@);
    out
}

/// The string made of the given characters.
pub fn string_of(cs: &[char]) -> (r: String)
    ensures
        r@ == cs@,
{
    let mut out = String::new();
    for i in 0..cs.len()
        invariant
            out@ == cs@.take(i as int),
    {
        out.push(cs[i]);
        assert(cs@.take(i as int + 1) =~= cs@.take(i as int).push(cs@[i as int]));
    }
    assert(cs@.take(cs@.len() as int) =~= cs@);
    out
}

/// Whether two strings hold the same characters.
pub fn same(a: &str, b: &str) -> (r: bool)
    ensures
        r == (a@ == b@),
{
    let x = chars_of(a);
    let y = chars_of(b);
    same_chars(x.as_slice(), y.as_slice())
}

/// Whether two runs of characters are equal.
pub fn same_chars(a: &[char], b: &[char]) -> (r: bool)
    ensures
        r == (a@ == b@),
{
    if a.len() != b.len() {
        return false;
    }
    for i in 0..a.len()
        invariant
            a.len() == b.len(),
            forall|j: int| 0 <= j < i ==> a@[j] == b@[j],
    {
        if a[i] != b[i] {
            assert(a@[i as int] != b@[i as int]);
            return false;
        }
    }
    assert(a@ =~= b@);
    true
}

// ---------------------------------------------------------------------------
// Trimming
// ---------------------------------------------------------------------------

/// `s` without its leading characters out of `set`.
pub open spec fn trim_start(set: Charset, s: Seq<char>) -> Seq<char>
    decreases s.len(),
{
    if s.len() > 0 && member(set, s[0]) {
        trim_start(set, s.drop_first())
    } else {
        s
    }
}

/// `s` without its trailing characters out of `set`.
pub open spec fn trim_end(set: Charset, s: Seq<char>) -> Seq<char>
    decreases s.len(),
{
    if s.len() > 0 && member(set, s.last()) {
        trim_end(set, s.drop_last())
    } else {
        s
    }
}

/// `s` without the characters out of `set` at either end.
pub open spec fn trimmed(set: Charset, s: Seq<char>) -> Seq<char> {
    trim_end(set, trim_start(set, s))
}

/// `s` without white space at either end.
pub open spec fn trim_white(s: Seq<char>) -> Seq<char> {
    trimmed(Charset::White, s)
}

/// Drops the leading characters that belong to `set`.
pub fn without_start(set: Charset, s: &[char]) -> (r: &[char])
    ensures
        r@ == trim_start(set, s@),
{
    let n: usize = s.len();
    let mut i: usize = 0;
    assert(s@.skip(0) =~= s@);
    while i < n && set.has(s[i])
        invariant
            n == s@.len(),
            i <= n,
            trim_start(set, s@) == trim_start(set, s@.skip(i as int)),
        decreases n - i,
    {
        assert(s@.skip(i as int).drop_first() =~= s@.skip(i as int + 1));
        i = i + 1;
    }
    let r = vstd::slice::slice_subrange(s, i, n);
    assert(r@ =~= s@.skip(i as int));
    r
}

/// Drops the trailing characters that belong to `set`.
pub fn without_end(set: Charset, s: &[char]) -> (r: &[char])
    ensures
        r@ == trim_end(set, s@),
{
    let mut n: usize = s.len();
    assert(s@.take(n as int) =~= s@);
    while n > 0 && set.has(s[n - 1])
        invariant
            n <= s@.len(),
            trim_end(set, s@) == trim_end(set, s@.take(n as int)),
        decreases n,
    {
        assert(s@.take(n as int).drop_last() =~= s@.take(n as int - 1));
        n = n - 1;
    }
    let r = vstd::slice::slice_subrange(s, 0, n);
    assert(r@ =~= s@.take(n as int));
    r
}

/// Drops the characters of `set` at either end.
pub fn trim(set: Charset, s: &[char]) -> (r: &[char])
    ensures
        r@ == trimmed(set, s@),
{
    without_end(set, without_start(set, s))
}

/// What is left after trimming starts and ends outside the set, and is a part
/// of what there was.
pub proof fn lemma_trimmed(set: Charset, s: Seq<char>)
    ensures
        trimmed(set, s).len() > 0 ==> !member(set, trimmed(set, s)[0]) && !member(
            set,
            trimmed(set, s).last(),
        ),
        trimmed(set, s).len() <= s.len(),
        forall|c: char| trimmed(set, s).contains(c) ==> s.contains(c),
        s.len() > 0 && !member(set, s[0]) ==> trimmed(set, s).is_prefix_of(s),
{
    lemma_trim_start(set, s);
    lemma_trim_end(set, trim_start(set, s));
}

proof fn lemma_trim_start(set: Charset, s: Seq<char>)
    ensures
        trim_start(set, s).len() > 0 ==> !member(set, trim_start(set, s)[0]),
        trim_start(set, s).len() <= s.len(),
        forall|c: char| trim_start(set, s).contains(c) ==> s.contains(c),
    decreases s.len(),
{
    if s.len() > 0 && member(set, s[0]) {
        lemma_trim_start(set, s.drop_first());
        assert forall|c: char| trim_start(set, s).contains(c) implies s.contains(c) by {
            assert(s.drop_first().contains(c));
            let i = choose|i: int| 0 <= i < s.drop_first().len() && s.drop_first()[i] == c;
            assert(s[i + 1] == c);
        }
    }
}

proof fn lemma_trim_end(set: Charset, s: Seq<char>)
    ensures
        trim_end(set, s).is_prefix_of(s),
        trim_end(set, s).len() > 0 ==> !member(set, trim_end(set, s).last()),
        forall|c: char| trim_end(set, s).contains(c) ==> s.contains(c),
    decreases s.len(),
{
    if s.len() > 0 && member(set, s.last()) {
        lemma_trim_end(set, s.drop_last());
        assert forall|c: char| trim_end(set, s).contains(c) implies s.contains(c) by {
            assert(s.drop_last().contains(c));
            let i = choose|i: int| 0 <= i < s.drop_last().len() && s.drop_last()[i] == c;
            assert(s[i] == c);
        }
    }
}

// ---------------------------------------------------------------------------
// Prefixes, suffixes and substrings
// ---------------------------------------------------------------------------

/// What follows `prefix` in `s`, where `s` starts with it.
pub open spec fn after_prefix(s: Seq<char>, prefix: Seq<char>) -> Option<Seq<char>> {
    if prefix.is_prefix_of(s) {
        Some(s.skip(prefix.len() as int))
    } else {
        None
    }
}

/// What precedes `suffix` in `s`, where `s` ends with it.
pub open spec fn before_suffix(s: Seq<char>, suffix: Seq<char>) -> Option<Seq<char>> {
    if suffix.is_suffix_of(s) {
        Some(s.take(s.len() - suffix.len()))
    } else {
        None
    }
}

/// Whether `pattern` occurs in `s`.
pub open spec fn occurs(s: Seq<char>, pattern: Seq<char>) -> bool {
    exists|i: int|
        0 <= i && i + pattern.len() <= s.len() && #[trigger] s.subrange(i, i + pattern.len())
            == pattern
}

/// Strips `prefix` off the front of `s`.
pub fn strip_prefix<'a>(s: &'a [char], prefix: &str) -> (r: Option<&'a [char]>)
    ensures
        match r {
            Some(rest) => after_prefix(s@, prefix@) == Some(rest@),
            None => after_prefix(s@, prefix@) is None,
        },
{
    let p = chars_of(prefix);
    if p.len() > s.len() {
        return None;
    }
    let head = vstd::slice::slice_subrange(s, 0, p.len());
    if same_chars(head, p.as_slice()) {
        let rest = vstd::slice::slice_subrange(s, p.len(), s.len());
        assert(rest@ =~= s@.skip(p@.len() as int));
        Some(rest)
    } else {
        None
    }
}

/// Strips `suffix` off the end of `s`.
pub fn strip_suffix<'a>(s: &'a [char], suffix: &str) -> (r: Option<&'a [char]>)
    ensures
        match r {
            Some(rest) => before_suffix(s@, suffix@) == Some(rest@),
            None => before_suffix(s@, suffix@) is None,
        },
{
    let p = chars_of(suffix);
    if p.len() > s.len() {
        return None;
    }
    let cut: usize = s.len() - p.len();
    let tail = vstd::slice::slice_subrange(s, cut, s.len());
    if same_chars(tail, p.as_slice()) {
        let rest = vstd::slice::slice_subrange(s, 0, cut);
        assert(rest@ =~= s@.take(cut as int));
        Some(rest)
    } else {
        None
    }
}

/// Whether `s` starts with `prefix`.
pub fn starts_with(s: &[char], prefix: &str) -> (b: bool)
    ensures
        b == prefix@.is_prefix_of(s@),
{
    strip_prefix(s, prefix).is_some()
}

/// Whether `pattern` occurs in `s`.
pub fn contains(s: &[char], pattern: &str) -> (b: bool)
    ensures
        b == occurs(s@, pattern@),
{
    let p = chars_of(pattern);
    if p.len() > s.len() {
        return false;
    }
    let last: usize = s.len() - p.len();
    let mut i: usize = 0;
    while i <= last
        invariant
            p@ == pattern@,
            last == s.len() - p.len(),
            i <= last + 1,
            last < usize::MAX || i <= last,
            forall|j: int| 0 <= j < i ==> #[trigger] s@.subrange(j, j + p@.len()) != p@,
        decreases last + 1 - i,
    {
        let window = vstd::slice::slice_subrange(s, i, i + p.len());
        if same_chars(window, p.as_slice()) {
            assert(s@.subrange(i as int, i + pattern@.len()) == pattern@);
            return true;
        }
        if i == last {
            return false;
        }
        i = i + 1;
    }
    false
}

/// `s` without the copies of `suffix` that stand at its end.
pub open spec fn trim_suffixes(s: Seq<char>, suffix: Seq<char>) -> Seq<char>
    decreases s.len(),
{
    if suffix.len() > 0 && suffix.is_suffix_of(s) {
        trim_suffixes(s.take(s.len() - suffix.len()), suffix)
    } else {
        s
    }
}

/// Drops every copy of `suffix` that stands at the end of `s`.
pub fn without_suffixes<'a>(s: &'a [char], suffix: &str) -> (r: &'a [char])
    requires
        suffix@.len() > 0,
    ensures
        r@ == trim_suffixes(s@, suffix@),
    decreases s@.len(),
{
    match strip_suffix(s, suffix) {
        Some(rest) => without_suffixes(rest, suffix),
        None => s,
    }
}

// ---------------------------------------------------------------------------
// Splitting
// ---------------------------------------------------------------------------

/// The pieces of `s` between the characters out of `set`: always one more than
/// there are such characters.
pub open spec fn split(set: Charset, s: Seq<char>) -> Seq<Seq<char>>
    decreases s.len(),
{
    if s.len() == 0 {
        seq![Seq::<char>::empty()]
    } else {
        let before = split(set, s.drop_last());
        if member(set, s.last()) {
            before.push(Seq::empty())
        } else {
            before.drop_last().push(before.last().push(s.last()))
        }
    }
}

/// A line without the carriage return at its end.
pub open spec fn strip_return(line: Seq<char>) -> Seq<char> {
    if line.len() > 0 && line.last() == '\r' {
        line.drop_last()
    } else {
        line
    }
}

/// The lines of `s`. A line ends at a line feed, and a carriage return just
/// before that belongs to the ending; what follows the last line feed is a line
/// unless it is empty.
pub open spec fn lines(s: Seq<char>) -> Seq<Seq<char>> {
    let pieces = split(Charset::One('\n'), s);
    let ended = pieces.drop_last().map_values(|line: Seq<char>| strip_return(line));
    if pieces.last().len() == 0 {
        ended
    } else {
        ended.push(pieces.last())
    }
}

/// The views of a list of character runs.
pub open spec fn runs(v: Seq<Vec<char>>) -> Seq<Seq<char>> {
    v.map_values(|x: Vec<char>| x@)
}

proof fn lemma_split_nonempty(set: Charset, s: Seq<char>)
    ensures
        split(set, s).len() > 0,
    decreases s.len(),
{
    if s.len() > 0 {
        lemma_split_nonempty(set, s.drop_last());
    }
}

/// Splits `s` at the characters of `set`.
pub fn split_at(set: Charset, s: &[char]) -> (r: Vec<Vec<char>>)
    ensures
        runs(r@) == split(set, s@),
        r@.len() > 0,
{
    let mut done: Vec<Vec<char>> = Vec::new();
    let mut current: Vec<char> = Vec::new();
    assert(s@.take(0) =~= Seq::empty());
    assert(runs(done@).push(current@) =~= split(set, s@.take(0)));
    for i in 0..s.len()
        invariant
            runs(done@).push(current@) == split(set, s@.take(i as int)),
    {
        let c = s[i];
        let ghost next = s@.take(i as int + 1);
        assert(next.drop_last() =~= s@.take(i as int));
        assert(next.last() == c);
        proof {
            lemma_split_nonempty(set, s@.take(i as int));
        }
        let ghost before = split(set, s@.take(i as int));
        assert(before.drop_last() =~= runs(done@));
        assert(before.last() == current@);
        if set.has(c) {
            let ghost old_done = done@;
            let finished = current;
            current = Vec::new();
            done.push(finished);
            assert(runs(done@) =~= runs(old_done).push(finished@));
            assert(runs(done@).push(current@) =~= before.push(Seq::empty()));
        } else {
            current.push(c);
        }
    }
    assert(s@.take(s@.len() as int) =~= s@);
    let ghost old_done = done@;
    let ghost last = current@;
    done.push(current);
    assert(runs(done@) =~= runs(old_done).push(last));
    done
}

/// The lines of a text.
pub fn lines_of(s: &[char]) -> (r: Vec<Vec<char>>)
    ensures
        runs(r@) == lines(s@),
{
    let pieces = split_at(Charset::One('\n'), s);
    let ghost parts = split(Charset::One('\n'), s@);
    let last: usize = pieces.len() - 1;
    let mut out: Vec<Vec<char>> = Vec::new();
    for i in 0..last
        invariant
            last == pieces@.len() - 1,
            runs(pieces@) == parts,
            runs(out@) == parts.take(i as int).map_values(|line: Seq<char>| strip_return(line)),
    {
        let piece = &pieces[i];
        assert(piece@ == parts[i as int]);
        let n: usize = piece.len();
        let end: usize = if n > 0 && piece[n - 1] == '\r' {
            n - 1
        } else {
            n
        };
        let line = vstd::slice::slice_to_vec(vstd::slice::slice_subrange(piece.as_slice(), 0, end));
        assert(line@ =~= strip_return(piece@));
        let ghost before = out@;
        out.push(line);
        assert(runs(out@) =~= runs(before).push(line@));
        assert(parts.take(i as int + 1) =~= parts.take(i as int).push(parts[i as int]));
        assert(runs(out@) =~= parts.take(i as int + 1).map_values(
            |line: Seq<char>| strip_return(line),
        ));
    }
    assert(parts.take(last as int) =~= parts.drop_last());
    assert(pieces@[last as int]@ == parts[last as int]);
    if pieces[last].len() > 0 {
        let line = vstd::slice::slice_to_vec(pieces[last].as_slice());
        let ghost before = out@;
        out.push(line);
        assert(runs(out@) =~= runs(before).push(line@));
    }
    out
}

/// The words of `s`: its longest runs without white space.
pub open spec fn words(s: Seq<char>) -> Seq<Seq<char>> {
    split(Charset::White, s).filter(|w: Seq<char>| w.len() > 0)
}

/// The words of a text.
pub fn words_of(s: &[char]) -> (r: Vec<Vec<char>>)
    ensures
        runs(r@) == words(s@),
{
    let pieces = split_at(Charset::White, s);
    let ghost parts = split(Charset::White, s@);
    let ghost full = |w: Seq<char>| w.len() > 0;
    let mut out: Vec<Vec<char>> = Vec::new();
    assert(runs(out@) =~= parts.take(0).filter(full)) by {
        reveal(Seq::filter);
    }
    for i in 0..pieces.len()
        invariant
            runs(pieces@) == parts,
            full == (|w: Seq<char>| w.len() > 0),
            runs(out@) == parts.take(i as int).filter(full),
    {
        let piece = &pieces[i];
        let ghost next = parts.take(i as int + 1);
        assert(next.drop_last() =~= parts.take(i as int));
        assert(next.last() == piece@);
        let ghost before = out@;
        if piece.len() > 0 {
            let word = vstd::slice::slice_to_vec(piece.as_slice());
            out.push(word);
            assert(runs(out@) =~= runs(before).push(word@));
        }
        assert(runs(out@) == next.filter(full)) by {
            reveal(Seq::filter);
        }
    }
    assert(parts.take(parts.len() as int) =~= parts);
    out
}

// ---------------------------------------------------------------------------
// Letter case and character classes
// ---------------------------------------------------------------------------

/// The lower-case form of an ASCII capital; every other character as it is.
pub open spec fn lower(c: char) -> char {
    if 'A' <= c <= 'Z' {
        ((c as u8 + 32) as u8) as char
    } else {
        c
    }
}

/// `s` with its ASCII capitals made small.
pub open spec fn lowered(s: Seq<char>) -> Seq<char> {
    s.map_values(|c: char| lower(c))
}

/// An ASCII letter or digit.
pub open spec fn alphanumeric(c: char) -> bool {
    'a' <= c <= 'z' || 'A' <= c <= 'Z' || '0' <= c <= '9'
}

/// An ASCII hexadecimal digit.
pub open spec fn hex_digit(c: char) -> bool {
    'a' <= c <= 'f' || 'A' <= c <= 'F' || '0' <= c <= '9'
}

/// Every character of `s` is an ASCII letter or digit.
pub open spec fn all_alphanumeric(s: Seq<char>) -> bool {
    forall|i: int| 0 <= i < s.len() ==> alphanumeric(#[trigger] s[i])
}

/// Every character of `s` is an ASCII hexadecimal digit.
pub open spec fn all_hex(s: Seq<char>) -> bool {
    forall|i: int| 0 <= i < s.len() ==> hex_digit(#[trigger] s[i])
}

/// `s` with its ASCII capitals made small.
pub fn lower_case(s: &[char]) -> (r: Vec<char>)
    ensures
        r@ == lowered(s@),
{
    let mut out: Vec<char> = Vec::new();
    for i in 0..s.len()
        invariant
            out@ == lowered(s@.take(i as int)),
    {
        let c = s[i];
        let d = if 'A' <= c && c <= 'Z' {
            (c as u8 + 32) as char
        } else {
            c
        };
        out.push(d);
        assert(lowered(s@.take(i as int + 1)) =~= lowered(s@.take(i as int)).push(lower(c)));
    }
    assert(s@.take(s@.len() as int) =~= s@);
    out
}

/// Whether `s` is made of ASCII letters and digits.
pub fn is_alphanumeric(s: &[char]) -> (b: bool)
    ensures
        b == all_alphanumeric(s@),
{
    for i in 0..s.len()
        invariant
            forall|j: int| 0 <= j < i ==> alphanumeric(#[trigger] s@[j]),
    {
        let c = s[i];
        if !(('a' <= c && c <= 'z') || ('A' <= c && c <= 'Z') || ('0' <= c && c <= '9')) {
            assert(!alphanumeric(s@[i as int]));
            return false;
        }
    }
    true
}

/// Whether `s` is made of ASCII hexadecimal digits.
pub fn is_hex(s: &[char]) -> (b: bool)
    ensures
        b == all_hex(s@),
{
    for i in 0..s.len()
        invariant
            forall|j: int| 0 <= j < i ==> hex_digit(#[trigger] s@[j]),
    {
        let c = s[i];
        if !(('a' <= c && c <= 'f') || ('A' <= c && c <= 'F') || ('0' <= c && c <= '9')) {
            assert(!hex_digit(s@[i as int]));
            return false;
        }
    }
    true
}

/// Whether two texts are equal up to the case of ASCII letters.
pub fn same_ignoring_case(a: &str, b: &str) -> (r: bool)
    ensures
        r == (lowered(a@) == lowered(b@)),
{
    let x = chars_of(a);
    let y = chars_of(b);
    let x = lower_case(x.as_slice());
    let y = lower_case(y.as_slice());
    same_chars(x.as_slice(), y.as_slice())
}

// ---------------------------------------------------------------------------
// Decimal numbers
// ---------------------------------------------------------------------------

/// The character of one decimal digit.
pub open spec fn digit(d: nat) -> char
    recommends
        d < 10,
{
    (('0' as u8 + d) as u8) as char
}

/// `n` written in decimal, without leading zeros.
pub open spec fn decimal(n: nat) -> Seq<char>
    decreases n,
{
    if n < 10 {
        seq![digit(n)]
    } else {
        decimal(n / 10).push(digit(n % 10))
    }
}

/// `n` written in decimal.
pub fn number(n: u128) -> (r: String)
    ensures
        r@ == decimal(n as nat),
    decreases n,
{
    let d: u8 = (n % 10) as u8;
    let c: char = (48 + d) as char;
    if n < 10 {
        let mut out = String::new();
        out.push(c);
        assert(out@ =~= seq![digit(n as nat)]);
        out
    } else {
        let mut out = number(n / 10);
        out.push(c);
        out
    }
}

/// A decimal digit.
pub open spec fn is_digit(c: char) -> bool {
    '0' <= c <= '9'
}

/// The number that a run of decimal digits writes.
pub open spec fn value(s: Seq<char>) -> nat
    decreases s.len(),
{
    if s.len() == 0 {
        0
    } else {
        (value(s.drop_last()) * 10 + (s.last() as nat - '0' as nat)) as nat
    }
}

/// Every character of `s` is a decimal digit.
pub open spec fn all_digits(s: Seq<char>) -> bool {
    forall|i: int| 0 <= i < s.len() ==> is_digit(#[trigger] s[i])
}

/// `s` without a plus sign in front.
pub open spec fn unsigned(s: Seq<char>) -> Seq<char> {
    if s.len() > 0 && s[0] == '+' {
        s.drop_first()
    } else {
        s
    }
}

/// The number that `s` writes: decimal digits, at least one, after at most one
/// plus sign. `None` where `s` is anything else or the number is over `max`.
pub open spec fn parsed(s: Seq<char>, max: nat) -> Option<nat> {
    let digits = unsigned(s);
    if digits.len() > 0 && all_digits(digits) && value(digits) <= max {
        Some(value(digits))
    } else {
        None
    }
}

proof fn lemma_value_grows(s: Seq<char>, k: int)
    requires
        0 <= k <= s.len(),
        all_digits(s),
    ensures
        value(s.take(k)) <= value(s),
    decreases s.len() - k,
{
    if k == s.len() {
        assert(s.take(k) =~= s);
    } else {
        lemma_value_grows(s, k + 1);
        assert(s.take(k + 1).drop_last() =~= s.take(k));
    }
}

/// Reads a decimal number of at most `max`.
pub fn parse_number(s: &[char], max: u64) -> (r: Option<u64>)
    ensures
        match r {
            Some(n) => parsed(s@, max as nat) == Some(n as nat),
            None => parsed(s@, max as nat) is None,
        },
{
    let from: usize = if s.len() > 0 && s[0] == '+' {
        1
    } else {
        0
    };
    let ghost digits = s@.skip(from as int);
    assert(digits =~= unsigned(s@));
    if from == s.len() {
        return None;
    }
    let mut n: u64 = 0;
    let mut i: usize = from;
    while i < s.len()
        invariant
            from <= i <= s.len(),
            digits == s@.skip(from as int),
            forall|j: int| 0 <= j < i - from ==> is_digit(#[trigger] digits[j]),
            n == value(digits.take(i - from)),
            n <= max,
            digits == unsigned(s@),
        decreases s.len() - i,
    {
        let c = s[i];
        assert(digits[i - from] == c);
        if !('0' <= c && c <= '9') {
            assert(!is_digit(digits[i - from]));
            return None;
        }
        let d: u64 = c as u64 - 48;
        let ghost k = i - from;
        let wide: u128 = n as u128 * 10 + d as u128;
        proof {
            assert(digits.take(k + 1).drop_last() =~= digits.take(k));
            assert(value(digits.take(k + 1)) == wide);
            if all_digits(digits) {
                lemma_value_grows(digits, k + 1);
            }
        }
        if wide > max as u128 {
            return None;
        }
        n = wide as u64;
        i = i + 1;
    }
    assert(digits.take(digits.len() as int) =~= digits);
    Some(n)
}

/// Reading a number that was written in decimal gives the number back.
pub proof fn law_decimal_reads_back(n: nat, max: nat)
    requires
        n <= max,
    ensures
        parsed(decimal(n), max) == Some(n),
{
    lemma_decimal(n);
    assert(is_digit(decimal(n)[0]));
}

proof fn lemma_decimal(n: nat)
    ensures
        decimal(n).len() > 0,
        all_digits(decimal(n)),
        value(decimal(n)) == n,
    decreases n,
{
    if n < 10 {
        assert(decimal(n).drop_last() =~= Seq::empty());
        assert(value(decimal(n).drop_last()) == 0);
    } else {
        lemma_decimal(n / 10);
        assert(decimal(n).drop_last() =~= decimal(n / 10));
    }
}

// ---------------------------------------------------------------------------
// Size in UTF-8
// ---------------------------------------------------------------------------

/// How many bytes the UTF-8 form of `s` takes.
pub open spec fn size(s: Seq<char>) -> nat {
    vstd::utf8::encode_utf8(s).len()
}

/// How many bytes the UTF-8 form of one character takes.
pub open spec fn width(c: char) -> nat {
    if (c as u32) < 0x80 {
        1
    } else if (c as u32) < 0x800 {
        2
    } else if (c as u32) < 0x10000 {
        3
    } else {
        4
    }
}

/// How many bytes the UTF-8 form of `c` takes.
pub fn width_of(c: char) -> (n: usize)
    ensures
        n == width(c),
        1 <= n <= 4,
{
    let u: u32 = c as u32;
    if u < 0x80 {
        1
    } else if u < 0x800 {
        2
    } else if u < 0x10000 {
        3
    } else {
        4
    }
}

/// The size of a text in front of which a character is put.
pub proof fn lemma_size_first(s: Seq<char>)
    requires
        s.len() > 0,
    ensures
        size(s) == width(s[0]) + size(s.drop_first()),
{
    vstd::utf8::char_is_scalar(s[0]);
}

/// Sizes add up.
pub proof fn lemma_size_concat(a: Seq<char>, b: Seq<char>)
    ensures
        size(a + b) == size(a) + size(b),
    decreases a.len(),
{
    if a.len() == 0 {
        assert(a + b =~= b);
    } else {
        lemma_size_first(a);
        lemma_size_first(a + b);
        assert((a + b).drop_first() =~= a.drop_first() + b);
        lemma_size_concat(a.drop_first(), b);
    }
}

/// The size of a part is at most that of the whole.
pub proof fn lemma_size_trimmed(set: Charset, s: Seq<char>)
    ensures
        size(trimmed(set, s)) <= size(s),
{
    lemma_size_trim_start(set, s);
    lemma_trim_end(set, trim_start(set, s));
    let t = trim_start(set, s);
    let r = trim_end(set, t);
    assert(t =~= r + t.skip(r.len() as int));
    lemma_size_concat(r, t.skip(r.len() as int));
}

proof fn lemma_size_trim_start(set: Charset, s: Seq<char>)
    ensures
        size(trim_start(set, s)) <= size(s),
    decreases s.len(),
{
    if s.len() > 0 && member(set, s[0]) {
        lemma_size_first(s);
        lemma_size_trim_start(set, s.drop_first());
    }
}

/// A text of ASCII characters takes one byte for each.
pub proof fn lemma_size_ascii(s: Seq<char>)
    requires
        forall|i: int| 0 <= i < s.len() ==> (#[trigger] s[i] as u32) < 0x80,
    ensures
        size(s) == s.len(),
    decreases s.len(),
{
    if s.len() > 0 {
        lemma_size_first(s);
        lemma_size_ascii(s.drop_first());
    }
}

/// The number of bytes of a string.
pub fn size_of(s: &str) -> (n: usize)
    ensures
        n == size(s@),
{
    s.as_bytes().len()
}

// ---------------------------------------------------------------------------
// Lists of strings
// ---------------------------------------------------------------------------

/// The views of a list of strings.
pub open spec fn views(v: Seq<String>) -> Seq<Seq<char>> {
    v.map_values(|s: String| s@)
}

/// The texts of a list, with `separator` between each two.
pub open spec fn joined(parts: Seq<Seq<char>>, separator: Seq<char>) -> Seq<char>
    decreases parts.len(),
{
    if parts.len() == 0 {
        Seq::empty()
    } else if parts.len() == 1 {
        parts[0]
    } else {
        joined(parts.drop_last(), separator) + separator + parts.last()
    }
}

/// Joins the strings of a list.
pub fn join(parts: &Vec<String>, separator: &str) -> (r: String)
    ensures
        r@ == joined(views(parts@), separator@),
{
    let ghost all = views(parts@);
    let mut out = String::new();
    for i in 0..parts.len()
        invariant
            all == views(parts@),
            out@ == joined(all.take(i as int), separator@),
    {
        let ghost next = all.take(i as int + 1);
        assert(next.drop_last() =~= all.take(i as int));
        assert(next.last() == parts@[i as int]@);
        if i > 0 {
            out.append(separator);
        }
        out.append(parts[i].as_str());
        if i == 0 {
            assert(out@ =~= next[0]);
        }
    }
    assert(all.take(all.len() as int) =~= all);
    out
}

/// The views of a list of string slices.
pub open spec fn slices(v: Seq<&str>) -> Seq<Seq<char>> {
    v.map_values(|s: &str| s@)
}

/// A list of owned strings.
pub fn list(items: &[&str]) -> (r: Vec<String>)
    ensures
        views(r@) == slices(items@),
{
    let mut out: Vec<String> = Vec::new();
    for i in 0..items.len()
        invariant
            views(out@) == slices(items@.take(i as int)),
    {
        let ghost before = out@;
        let item = items[i].to_owned();
        out.push(item);
        assert(views(out@) =~= views(before).push(item@));
        assert(slices(items@.take(i as int + 1)) =~= slices(items@.take(i as int)).push(item@));
    }
    assert(items@.take(items@.len() as int) =~= items@);
    out
}

/// The view of an optional string.
pub open spec fn option_view(s: Option<String>) -> Option<Seq<char>> {
    match s {
        Some(s) => Some(s@),
        None => None,
    }
}

/// What follows a separator that is the last one in a text is its last piece.
pub proof fn lemma_split_last(set: Charset, a: Seq<char>, sep: char, b: Seq<char>)
    requires
        member(set, sep),
        forall|i: int| 0 <= i < b.len() ==> !member(set, #[trigger] b[i]),
    ensures
        split(set, a.push(sep) + b) == split(set, a).push(b),
    decreases b.len(),
{
    let whole = a.push(sep) + b;
    if b.len() == 0 {
        assert(whole =~= a.push(sep));
        assert(whole.drop_last() =~= a);
        assert(b =~= Seq::empty());
    } else {
        lemma_split_last(set, a, sep, b.drop_last());
        assert(whole.drop_last() =~= a.push(sep) + b.drop_last());
        assert(whole.last() == b.last());
        let before = split(set, whole.drop_last());
        assert(before.drop_last() =~= split(set, a));
        assert(b =~= b.drop_last().push(b.last()));
    }
}

/// A text without separators is its own only piece.
pub proof fn lemma_split_none(set: Charset, s: Seq<char>)
    requires
        forall|i: int| 0 <= i < s.len() ==> !member(set, #[trigger] s[i]),
    ensures
        split(set, s) == seq![s],
    decreases s.len(),
{
    if s.len() > 0 {
        lemma_split_none(set, s.drop_last());
        let before = split(set, s.drop_last());
        assert(before.drop_last() =~= Seq::empty());
        assert(s =~= s.drop_last().push(s.last()));
        assert(split(set, s) =~= seq![s]);
    } else {
        assert(s =~= Seq::empty());
    }
}

/// Decimal digits are no separators, and different numbers are written
/// differently.
pub proof fn lemma_decimal_plain(n: nat, sep: char)
    requires
        !is_digit(sep),
    ensures
        forall|i: int|
            0 <= i < decimal(n).len() ==> !member(Charset::One(sep), #[trigger] decimal(n)[i]),
        value(decimal(n)) == n,
{
    lemma_decimal(n);
}

/// A number is written with decimal digits, at least one.
pub proof fn lemma_decimal_digits(n: nat)
    ensures
        decimal(n).len() > 0,
        all_digits(decimal(n)),
        is_digit(decimal(n)[0]),
        is_digit(decimal(n).last()),
{
    lemma_decimal(n);
}

/// White space before a text that has none at its ends is what trimming drops.
pub proof fn lemma_trim_padded(pad: Seq<char>, s: Seq<char>)
    requires
        forall|i: int| 0 <= i < pad.len() ==> white_space(#[trigger] pad[i]),
        s.len() > 0,
        !white_space(s[0]),
        !white_space(s.last()),
    ensures
        trim_white(pad + s) == s,
    decreases pad.len(),
{
    let whole = pad + s;
    if pad.len() == 0 {
        assert(whole =~= s);
    } else {
        lemma_trim_padded(pad.drop_first(), s);
        assert(whole.drop_first() =~= pad.drop_first() + s);
    }
}

/// Lines, each with its line feed.
pub open spec fn unlines(lines: Seq<Seq<char>>) -> Seq<char>
    decreases lines.len(),
{
    if lines.len() == 0 {
        Seq::empty()
    } else {
        unlines(lines.drop_last()) + lines.last().push('\n')
    }
}

/// A text that can stand on a line as it is.
pub open spec fn on_one_line(line: Seq<char>) -> bool {
    !line.contains('\n') && strip_return(line) == line
}

proof fn lemma_split_unlines(ls: Seq<Seq<char>>)
    requires
        forall|i: int| 0 <= i < ls.len() ==> on_one_line(#[trigger] ls[i]),
    ensures
        split(Charset::One('\n'), unlines(ls)) == ls.push(Seq::empty()),
    decreases ls.len(),
{
    let set = Charset::One('\n');
    let none = Seq::<char>::empty();
    if ls.len() == 0 {
        assert(ls.push(none) =~= seq![none]);
    } else {
        let before = ls.drop_last();
        let last = ls.last();
        assert(on_one_line(ls[ls.len() - 1]));
        assert forall|i: int| 0 <= i < last.len() implies !member(set, #[trigger] last[i]) by {
            assert(last.contains(last[i]));
        }
        assert forall|i: int| 0 <= i < before.len() implies on_one_line(#[trigger] before[i]) by {
            assert(on_one_line(ls[i]));
        }
        lemma_split_unlines(before);
        let so_far = unlines(before) + last;
        assert(split(set, so_far) =~= ls) by {
            if before.len() == 0 {
                assert(so_far =~= last);
                lemma_split_none(set, last);
                assert(ls =~= seq![last]);
            } else {
                let x = unlines(before).drop_last();
                assert(unlines(before) =~= x.push('\n'));
                assert(unlines(before) =~= x.push('\n') + none);
                lemma_split_last(set, x, '\n', none);
                assert(split(set, x) =~= before) by {
                    assert(split(set, x).push(none).drop_last() =~= split(set, x));
                    assert(before.push(none).drop_last() =~= before);
                }
                lemma_split_last(set, x, '\n', last);
                assert(before.push(last) =~= ls);
            }
        }
        lemma_split_last(set, so_far, '\n', none);
        assert(unlines(ls) =~= so_far.push('\n') + none);
    }
}

/// Lines that are put together, each with its line feed, are read as they were.
pub proof fn law_lines_read_back(ls: Seq<Seq<char>>)
    requires
        forall|i: int| 0 <= i < ls.len() ==> on_one_line(#[trigger] ls[i]),
    ensures
        lines(unlines(ls)) == ls,
{
    lemma_split_unlines(ls);
    let pieces = split(Charset::One('\n'), unlines(ls));
    assert(pieces.drop_last() =~= ls);
    assert(ls.map_values(|line: Seq<char>| strip_return(line)) =~= ls) by {
        assert forall|i: int| 0 <= i < ls.len() implies strip_return(#[trigger] ls[i]) == ls[i] by {
            assert(on_one_line(ls[i]));
        }
    }
}

/// White space around a text, whatever the text, is dropped when it is trimmed.
pub proof fn lemma_trim_around(before: Seq<char>, s: Seq<char>, after: Seq<char>)
    requires
        forall|i: int| 0 <= i < before.len() ==> white_space(#[trigger] before[i]),
        forall|i: int| 0 <= i < after.len() ==> white_space(#[trigger] after[i]),
    ensures
        trim_white(before + s + after) == trim_white(s),
    decreases before.len(),
{
    let whole = before + s + after;
    if before.len() > 0 {
        lemma_trim_around(before.drop_first(), s, after);
        assert(whole.drop_first() =~= before.drop_first() + s + after);
        assert(whole[0] == before[0]);
    } else {
        assert(whole =~= s + after);
        lemma_trim_after(s, after);
    }
}

proof fn lemma_trim_after(s: Seq<char>, after: Seq<char>)
    requires
        forall|i: int| 0 <= i < after.len() ==> white_space(#[trigger] after[i]),
    ensures
        trim_white(s + after) == trim_white(s),
    decreases s.len() + after.len(),
{
    let set = Charset::White;
    let whole = s + after;
    if s.len() == 0 {
        assert(whole =~= after);
        lemma_all_white(after);
        assert(trim_white(s) =~= Seq::empty());
    } else if white_space(s[0]) {
        lemma_trim_after(s.drop_first(), after);
        assert(whole.drop_first() =~= s.drop_first() + after);
    } else {
        assert(trim_start(set, whole) == whole);
        if after.len() == 0 {
            assert(whole =~= s);
        } else {
            assert(whole.last() == after.last());
            assert(whole.drop_last() =~= s + after.drop_last());
            lemma_trim_after(s, after.drop_last());
            assert(trim_start(set, s + after.drop_last()) == s + after.drop_last());
        }
    }
}

proof fn lemma_all_white(s: Seq<char>)
    requires
        forall|i: int| 0 <= i < s.len() ==> white_space(#[trigger] s[i]),
    ensures
        trim_white(s) == Seq::<char>::empty(),
    decreases s.len(),
{
    if s.len() > 0 {
        assert(white_space(s[0]));
        assert forall|i: int| 0 <= i < s.drop_first().len() implies white_space(
            #[trigger] s.drop_first()[i],
        ) by {
            assert(white_space(s[i + 1]));
        }
        lemma_all_white(s.drop_first());
    } else {
        assert(s =~= Seq::empty());
    }
}

/// Two lines, each with its line feed, are read as two lines.
pub proof fn lemma_two_lines(a: Seq<char>, b: Seq<char>)
    requires
        forall|i: int| 0 <= i < a.len() ==> #[trigger] a[i] != '\n',
        forall|i: int| 0 <= i < b.len() ==> #[trigger] b[i] != '\n',
    ensures
        lines(a.push('\n') + b.push('\n')) == seq![strip_return(a), strip_return(b)],
{
    let set = Charset::One('\n');
    let none = Seq::<char>::empty();
    let both = a.push('\n') + b;
    lemma_split_none(set, a);
    lemma_split_last(set, a, '\n', b);
    lemma_split_last(set, both, '\n', none);
    assert(a.push('\n') + b.push('\n') =~= both.push('\n') + none);
    assert(lines(a.push('\n') + b.push('\n')) =~= seq![strip_return(a), strip_return(b)]);
}

/// A copy of an optional string.
pub fn copied(s: Option<&String>) -> (r: Option<String>)
    ensures
        match s {
            Some(s) => option_view(r) == Some(s@),
            None => r is None,
        },
{
    match s {
        Some(s) => Some(s.clone()),
        None => None,
    }
}

/// One part needs no separator.
pub proof fn law_one_part_is_joined(part: Seq<char>, separator: Seq<char>)
    ensures
        joined(seq![part], separator) == part,
{
    assert(seq![part].drop_last() =~= Seq::empty());
    assert(joined(seq![part], separator) =~= part);
}

/// The separator stands between any two neighbours, and nowhere else: the parts of
/// two lists are joined by joining each list and putting one separator between.
pub proof fn law_joined_in_parts(
    first: Seq<Seq<char>>,
    second: Seq<Seq<char>>,
    separator: Seq<char>,
)
    requires
        first.len() > 0,
        second.len() > 0,
    ensures
        joined(first + second, separator) == joined(first, separator) + separator + joined(
            second,
            separator,
        ),
    decreases second.len(),
{
    let whole = first + second;
    assert(whole.drop_last() =~= first + second.drop_last());
    assert(whole.last() == second.last());
    if second.len() == 1 {
        assert(second =~= seq![second[0]]);
        law_one_part_is_joined(second[0], separator);
        assert(whole.drop_last() =~= first);
    } else {
        law_joined_in_parts(first, second.drop_last(), separator);
    }
    assert(joined(whole, separator) =~= joined(first, separator) + separator + joined(
        second,
        separator,
    ));
}

// ---------------------------------------------------------------------------
// Laws of texts
// ---------------------------------------------------------------------------

/// Trimming drops characters of the set from both ends, all of them, and nothing
/// else: the text is some of them, what is left, and some of them again, and what
/// is left neither starts nor ends with one.
pub proof fn law_trimming(set: Charset, s: Seq<char>)
    ensures
        exists|front: Seq<char>, back: Seq<char>|
            s == #[trigger] (front + trimmed(set, s) + back) && all_in(set, front) && all_in(
                set,
                back,
            ),
        trimmed(set, s).len() > 0 ==> !member(set, trimmed(set, s)[0]) && !member(
            set,
            trimmed(set, s).last(),
        ),
{
    lemma_trimmed(set, s);
    let front = lemma_cut_start(set, s);
    let back = lemma_cut_end(set, trim_start(set, s));
    assert(s =~= front + trimmed(set, s) + back);
}

/// Every character of `s` is in the set.
pub open spec fn all_in(set: Charset, s: Seq<char>) -> bool {
    forall|i: int| 0 <= i < s.len() ==> member(set, #[trigger] s[i])
}

proof fn lemma_cut_start(set: Charset, s: Seq<char>) -> (front: Seq<char>)
    ensures
        s == front + trim_start(set, s),
        all_in(set, front),
    decreases s.len(),
{
    if s.len() > 0 && member(set, s[0]) {
        let rest = lemma_cut_start(set, s.drop_first());
        let front = seq![s[0]] + rest;
        assert(s =~= seq![s[0]] + s.drop_first());
        assert(s =~= front + trim_start(set, s.drop_first()));
        front
    } else {
        assert(s =~= Seq::<char>::empty() + s);
        Seq::empty()
    }
}

proof fn lemma_cut_end(set: Charset, s: Seq<char>) -> (back: Seq<char>)
    ensures
        s == trim_end(set, s) + back,
        all_in(set, back),
    decreases s.len(),
{
    if s.len() > 0 && member(set, s.last()) {
        let rest = lemma_cut_end(set, s.drop_last());
        let back = rest.push(s.last());
        assert(s =~= s.drop_last().push(s.last()));
        assert(s =~= trim_end(set, s.drop_last()) + back);
        back
    } else {
        assert(s =~= s + Seq::<char>::empty());
        Seq::empty()
    }
}

/// A separator cuts a text in two: the pieces of the whole are those of what is
/// before it, then those of what is after it.
pub proof fn law_separator_cuts(set: Charset, before: Seq<char>, sep: char, after: Seq<char>)
    requires
        member(set, sep),
    ensures
        split(set, before + seq![sep] + after) == split(set, before) + split(set, after),
    decreases after.len(),
{
    let whole = before + seq![sep] + after;
    if after.len() == 0 {
        assert(whole.drop_last() =~= before);
        assert(whole.last() == sep);
        assert(split(set, whole) =~= split(set, before) + split(set, after));
    } else {
        law_separator_cuts(set, before, sep, after.drop_last());
        assert(whole.drop_last() =~= before + seq![sep] + after.drop_last());
        assert(whole.last() == after.last());
        lemma_split_nonempty(set, after.drop_last());
        let first = split(set, before);
        let rest = split(set, after.drop_last());
        assert((first + rest).drop_last() =~= first + rest.drop_last());
        assert(split(set, whole) =~= first + split(set, after));
    }
}

/// A text without separators is one piece, as it is.
pub proof fn law_one_piece(set: Charset, s: Seq<char>)
    requires
        forall|i: int| 0 <= i < s.len() ==> !member(set, #[trigger] s[i]),
    ensures
        split(set, s) == seq![s],
{
    lemma_split_none(set, s);
}

/// Splitting undoes joining: parts that do not hold the separator come back as
/// they were.
pub proof fn law_split_undoes_joining(parts: Seq<Seq<char>>, sep: char)
    requires
        parts.len() > 0,
        forall|i: int| 0 <= i < parts.len() ==> !(#[trigger] parts[i]).contains(sep),
    ensures
        split(Charset::One(sep), joined(parts, seq![sep])) == parts,
    decreases parts.len(),
{
    let last = parts.last();
    assert(!parts[parts.len() - 1].contains(sep));
    assert forall|i: int| 0 <= i < last.len() implies !member(Charset::One(sep), #[trigger] last[i]) by {
        if last[i] == sep {
            assert(last.contains(sep));
        }
    }
    lemma_split_none(Charset::One(sep), last);
    if parts.len() == 1 {
        assert(seq![last] =~= parts);
    } else {
        let front = parts.drop_last();
        assert forall|i: int| 0 <= i < front.len() implies !(#[trigger] front[i]).contains(sep) by {
            assert(front[i] == parts[i]);
        }
        law_split_undoes_joining(front, sep);
        law_separator_cuts(Charset::One(sep), joined(front, seq![sep]), sep, last);
        assert(front + seq![last] =~= parts);
    }
}

/// Joining undoes splitting: the pieces of a text, with the separator between
/// them, are the text, and none of them holds the separator.
pub proof fn law_joining_undoes_split(s: Seq<char>, sep: char)
    ensures
        joined(split(Charset::One(sep), s), seq![sep]) == s,
        forall|i: int|
            0 <= i < split(Charset::One(sep), s).len() ==> !(#[trigger] split(
                Charset::One(sep),
                s,
            )[i]).contains(sep),
        split(Charset::One(sep), s).len() > 0,
    decreases s.len(),
{
    let set = Charset::One(sep);
    let pieces = split(set, s);
    lemma_split_nonempty(set, s);
    if s.len() == 0 {
        assert(pieces =~= seq![Seq::<char>::empty()]);
        assert(joined(pieces, seq![sep]) =~= s);
        assert(!pieces[0].contains(sep));
    } else {
        let front = s.drop_last();
        let before = split(set, front);
        law_joining_undoes_split(front, sep);
        if s.last() == sep {
            assert(pieces.drop_last() =~= before);
            assert(joined(pieces, seq![sep]) =~= s);
            assert forall|i: int| 0 <= i < pieces.len() implies !(#[trigger] pieces[i]).contains(
                sep,
            ) by {
                if i < before.len() {
                    assert(pieces[i] == before[i]);
                }
            }
        } else {
            let kept = before.drop_last();
            assert(pieces.drop_last() =~= kept);
            assert(pieces.last() == before.last().push(s.last()));
            if before.len() > 1 {
                assert(joined(pieces, seq![sep]) == joined(kept, seq![sep]) + seq![sep]
                    + pieces.last());
            }
            assert(joined(pieces, seq![sep]) =~= joined(before, seq![sep]).push(s.last()));
            assert(s =~= front.push(s.last()));
            assert forall|i: int| 0 <= i < pieces.len() implies !(#[trigger] pieces[i]).contains(
                sep,
            ) by {
                if i < kept.len() {
                    assert(pieces[i] == before[i]);
                } else {
                    let piece = before.last();
                    assert(!before[before.len() - 1].contains(sep));
                    if pieces[i].contains(sep) {
                        let j = choose|j: int| 0 <= j < pieces[i].len() && pieces[i][j] == sep;
                        assert(piece[j] == sep);
                    }
                }
            }
        }
    }
}

/// White space, wherever it stands, only parts words: the words of a text are
/// those before it, then those after it.
pub proof fn law_words_are_parted(before: Seq<char>, white: char, after: Seq<char>)
    requires
        white_space(white),
    ensures
        words(before + seq![white] + after) == words(before) + words(after),
{
    law_separator_cuts(Charset::White, before, white, after);
    let full = |w: Seq<char>| w.len() > 0;
    Seq::filter_distributes_over_add(
        split(Charset::White, before),
        split(Charset::White, after),
        full,
    );
}

/// A text without white space is one word, or none where it is empty.
pub proof fn law_one_word(s: Seq<char>)
    requires
        forall|i: int| 0 <= i < s.len() ==> !white_space(#[trigger] s[i]),
    ensures
        words(s) == if s.len() > 0 {
            seq![s]
        } else {
            Seq::empty()
        },
{
    assert forall|i: int| 0 <= i < s.len() implies !member(Charset::White, #[trigger] s[i]) by {
        assert(!white_space(s[i]));
    }
    lemma_split_none(Charset::White, s);
    let one = seq![s];
    let full = |w: Seq<char>| w.len() > 0;
    reveal_with_fuel(Seq::filter, 2);
    assert(one.drop_last() =~= Seq::empty());
    assert(one.drop_last().filter(full) =~= Seq::empty());
    assert(one.last() == s);
    assert(words(s) =~= if s.len() > 0 {
        seq![s]
    } else {
        Seq::empty()
    });
}

/// Line feeds end lines, with or without a carriage return before them, and what
/// follows the last of them is a line where it is not empty.
pub proof fn law_lines_end_at_line_feeds(line: Seq<char>, rest: Seq<char>)
    requires
        !line.contains('\n'),
        line.len() == 0 || line.last() != '\r',
    ensures
        lines(line + seq!['\n'] + rest) == seq![line] + lines(rest),
        lines(line + seq!['\r', '\n'] + rest) == seq![line] + lines(rest),
        line.len() > 0 ==> lines(line) == seq![line],
        lines(Seq::empty()) == Seq::<Seq<char>>::empty(),
{
    let set = Charset::One('\n');
    let returned = line.push('\r');
    assert forall|i: int| 0 <= i < line.len() implies !member(set, #[trigger] line[i]) by {
        if line[i] == '\n' {
            assert(line.contains('\n'));
        }
    }
    lemma_split_none(set, line);
    lemma_split_none(set, returned);
    law_separator_cuts(set, line, '\n', rest);
    law_separator_cuts(set, returned, '\n', rest);
    lemma_split_nonempty(set, rest);
    let pieces = split(set, rest);
    assert(line + seq!['\r', '\n'] + rest =~= returned + seq!['\n'] + rest);
    let ended = pieces.drop_last().map_values(|l: Seq<char>| strip_return(l));
    assert((seq![line] + pieces).drop_last() =~= seq![line] + pieces.drop_last());
    assert((seq![returned] + pieces).drop_last() =~= seq![returned] + pieces.drop_last());
    assert(returned.drop_last() =~= line);
    assert(lines(line + seq!['\n'] + rest) =~= seq![line] + lines(rest));
    assert(lines(returned + seq!['\n'] + rest) =~= seq![line] + lines(rest));
    assert(lines(line) =~= if line.len() > 0 {
        seq![line]
    } else {
        Seq::empty()
    });
    assert(lines(Seq::empty()) =~= Seq::<Seq<char>>::empty());
}

/// A number is read by its digits alone: zeros in front of it and one plus sign in
/// front of all change nothing, and a text that is read as a number and has
/// neither is that number written out.
pub proof fn law_numbers_are_read_by_their_digits(s: Seq<char>, max: nat)
    requires
        s.len() > 0,
        s[0] != '+',
    ensures
        parsed(seq!['0'] + s, max) == parsed(s, max),
        parsed(seq!['+'] + s, max) == parsed(s, max),
        parsed(seq!['+', '+'] + s, max) is None,
        (s.len() == 1 || s[0] != '0') && parsed(s, max) is Some ==> s == decimal(parsed(s, max)->0),
        parsed(s, max) is Some ==> parsed(s, max)->0 <= max,
        (exists|i: int| 0 <= i < s.len() && !('0' <= #[trigger] s[i] <= '9')) ==> parsed(s, max) is None,
{
    let zero = seq!['0'] + s;
    let plus = seq!['+'] + s;
    let twice = seq!['+', '+'] + s;
    assert(plus.drop_first() =~= s);
    assert(twice.drop_first() =~= plus);
    assert(plus[0] == '+');
    assert(!is_digit(plus[0]));
    lemma_leading_zero(s);
    if all_digits(s) {
        assert forall|i: int| 0 <= i < zero.len() implies is_digit(#[trigger] zero[i]) by {
            if i > 0 {
                assert(zero[i] == s[i - 1]);
            }
        }
    } else {
        let i = choose|i: int| 0 <= i < s.len() && !is_digit(#[trigger] s[i]);
        assert(zero[i + 1] == s[i]);
    }
    if all_digits(s) && (s.len() == 1 || s[0] != '0') {
        lemma_digits_are_decimal(s);
    }
    if exists|i: int| 0 <= i < s.len() && !('0' <= #[trigger] s[i] <= '9') {
        let i = choose|i: int| 0 <= i < s.len() && !('0' <= #[trigger] s[i] <= '9');
        assert(!is_digit(s[i]));
    }
}

proof fn lemma_leading_zero(s: Seq<char>)
    ensures
        value(seq!['0'] + s) == value(s),
    decreases s.len(),
{
    let zero = seq!['0'] + s;
    if s.len() == 0 {
        assert(zero.drop_last() =~= Seq::empty());
        assert(value(zero.drop_last()) == 0);
    } else {
        assert(zero.drop_last() =~= seq!['0'] + s.drop_last());
        lemma_leading_zero(s.drop_last());
    }
}

proof fn lemma_digits_are_decimal(s: Seq<char>)
    requires
        s.len() > 0,
        all_digits(s),
        s.len() == 1 || s[0] != '0',
    ensures
        decimal(value(s)) == s,
        s[0] != '0' ==> value(s) > 0,
    decreases s.len(),
{
    let front = s.drop_last();
    let c = s.last();
    assert(is_digit(s[s.len() - 1]));
    assert(is_digit(s[0]));
    let d = (c as nat - '0' as nat) as nat;
    assert(digit(d) == c);
    if s.len() == 1 {
        assert(front =~= Seq::empty());
        assert(value(front) == 0);
        assert(decimal(value(s)) =~= s);
    } else {
        assert forall|i: int| 0 <= i < front.len() implies is_digit(#[trigger] front[i]) by {
            assert(front[i] == s[i]);
        }
        lemma_digits_are_decimal(front);
        let v = value(front);
        assert(value(s) == v * 10 + d);
        assert((v * 10 + d) / 10 == v && (v * 10 + d) % 10 == d);
        assert(front.push(c) =~= s);
    }
}

/// Trimming gives back what stands between characters of the set, where it starts
/// and ends with others.
pub proof fn law_trimming_keeps_the_middle(
    set: Charset,
    front: Seq<char>,
    s: Seq<char>,
    back: Seq<char>,
)
    requires
        all_in(set, front),
        all_in(set, back),
        s.len() > 0,
        !member(set, s[0]),
        !member(set, s.last()),
    ensures
        trimmed(set, front + s + back) == s,
{
    lemma_drop_front(set, front, s + back);
    assert(front + s + back =~= front + (s + back));
    assert((s + back)[0] == s[0]);
    lemma_drop_back(set, s, back);
}

proof fn lemma_drop_front(set: Charset, front: Seq<char>, rest: Seq<char>)
    requires
        all_in(set, front),
        rest.len() > 0,
        !member(set, rest[0]),
    ensures
        trim_start(set, front + rest) == rest,
    decreases front.len(),
{
    let whole = front + rest;
    if front.len() == 0 {
        assert(whole =~= rest);
    } else {
        let fewer = front.drop_first();
        assert(member(set, front[0]));
        assert forall|i: int| 0 <= i < fewer.len() implies member(set, #[trigger] fewer[i]) by {
            assert(fewer[i] == front[i + 1]);
        }
        lemma_drop_front(set, fewer, rest);
        assert(whole.drop_first() =~= fewer + rest);
        assert(whole[0] == front[0]);
    }
}

proof fn lemma_drop_back(set: Charset, s: Seq<char>, back: Seq<char>)
    requires
        all_in(set, back),
        s.len() > 0,
        !member(set, s.last()),
    ensures
        trim_end(set, s + back) == s,
    decreases back.len(),
{
    let whole = s + back;
    if back.len() == 0 {
        assert(whole =~= s);
    } else {
        let fewer = back.drop_last();
        assert(member(set, back[back.len() - 1]));
        assert forall|i: int| 0 <= i < fewer.len() implies member(set, #[trigger] fewer[i]) by {
            assert(fewer[i] == back[i]);
        }
        lemma_drop_back(set, s, fewer);
        assert(whole.drop_last() =~= s + fewer);
        assert(whole.last() == back.last());
    }
}

} // verus!
