//! Text as a sequence of characters: how it is taken apart, trimmed, compared
//! and put together.

use vstd::prelude::*;

verus! {

broadcast use vstd::string::group_string_axioms;

// ---------------------------------------------------------------------------
// Character classes
// ---------------------------------------------------------------------------

/// Whether `c` has the Unicode property `White_Space`.
pub open spec fn is_white(c: char) -> bool {
    let u = c as u32;
    ||| 0x09 <= u <= 0x0d
    ||| u == 0x20
    ||| u == 0x85
    ||| u == 0xa0
    ||| u == 0x1680
    ||| 0x2000 <= u <= 0x200a
    ||| u == 0x2028
    ||| u == 0x2029
    ||| u == 0x202f
    ||| u == 0x205f
    ||| u == 0x3000
}

/// Whether `c` is an ASCII letter or digit.
pub open spec fn is_ascii_alnum(c: char) -> bool {
    ||| '0' <= c <= '9'
    ||| 'A' <= c <= 'Z'
    ||| 'a' <= c <= 'z'
}

/// What `char::is_alphanumeric` answers for `c`.
pub uninterp spec fn unicode_alphanumeric(c: char) -> bool;

/// `char::is_whitespace`: true exactly for the characters with the Unicode
/// property `White_Space`, a closed list of code points.
pub assume_specification[ char::is_whitespace ](c: char) -> (b: bool)
    ensures
        b == is_white(c),
;

/// `char::is_alphanumeric`: the Unicode properties `Alphabetic` and `Numeric`.
/// The answer is named; on ASCII it holds of the letters and the digits alone.
pub assume_specification[ char::is_alphanumeric ](c: char) -> (b: bool)
    ensures
        b == unicode_alphanumeric(c),
        (c as u32) < 0x80 ==> b == is_ascii_alnum(c),
;

/// `String::push`: appends one character.
pub assume_specification[ String::push ](s: &mut String, c: char)
    ensures
        final(s)@ == old(s)@.push(c),
;

/// A set of characters at which text is split or trimmed.
#[derive(Clone, Copy, PartialEq, Eq, Structural)]
pub enum CharClass {
    /// Unicode white space.
    White,
    /// Neither alphanumeric nor an underscore.
    NonWord,
    /// Not alphanumeric: where the parts of a symbol's name are divided.
    SymbolBreak,
    /// Neither ASCII alphanumeric nor an underscore.
    NonIdentifier,
    /// White space or one of ``* ` ( ) [ ] ,``.
    WordBreak,
    /// Exactly this character.
    Only(char),
}

impl CharClass {
    /// Whether `c` belongs to the class.
    pub open spec fn has(self, c: char) -> bool {
        match self {
            CharClass::White => is_white(c),
            CharClass::NonWord => !unicode_alphanumeric(c) && c != '_',
            CharClass::SymbolBreak => !unicode_alphanumeric(c) || c == '_',
            CharClass::NonIdentifier => !is_ascii_alnum(c) && c != '_',
            CharClass::WordBreak => is_white(c) || c == '*' || c == '`' || c == '(' || c == ')'
                || c == '[' || c == ']' || c == ',',
            CharClass::Only(only) => c == only,
        }
    }

    pub fn matches(&self, c: char) -> (res: bool)
        ensures
            res == self.has(c),
    {
        match self {
            CharClass::White => c.is_whitespace(),
            CharClass::NonWord => !c.is_alphanumeric() && c != '_',
            CharClass::SymbolBreak => !c.is_alphanumeric() || c == '_',
            CharClass::NonIdentifier => {
                let alnum = ('0' <= c && c <= '9') || ('A' <= c && c <= 'Z') || ('a' <= c && c
                    <= 'z');
                !alnum && c != '_'
            },
            CharClass::WordBreak => c.is_whitespace() || c == '*' || c == '`' || c == '(' || c
                == ')' || c == '[' || c == ']' || c == ',',
            CharClass::Only(only) => c == *only,
        }
    }
}

// ---------------------------------------------------------------------------
// Strings and characters
// ---------------------------------------------------------------------------

/// The texts that a list of strings holds.
pub open spec fn views(v: Seq<String>) -> Seq<Seq<char>> {
    v.map_values(|s: String| s@)
}

/// The text that an optional string holds.
pub open spec fn opt_view(o: Option<String>) -> Option<Seq<char>> {
    match o {
        Some(s) => Some(s@),
        None => None,
    }
}

pub fn chars_of(s: &str) -> (res: Vec<char>)
    ensures
        res@ == s@,
{
    let mut res: Vec<char> = Vec::new();
    for c in it: s.chars()
        invariant
            it.seq() == s@,
            res@ == it.seq().take(it.index() as int),
    {
        res.push(c);
    }
    assert(s@.take(s@.len() as int) =~= s@);
    res
}

/// The string made of `chars[from..to]`.
pub fn string_of(chars: &Vec<char>, from: usize, to: usize) -> (res: String)
    requires
        from <= to <= chars@.len(),
    ensures
        res@ == chars@.subrange(from as int, to as int),
{
    let mut res = String::new();
    let mut i: usize = from;
    while i < to
        invariant
            from <= i <= to <= chars@.len(),
            res@ == chars@.subrange(from as int, i as int),
        decreases to - i,
    {
        res.push(chars[i]);
        i += 1;
        assert(res@ =~= chars@.subrange(from as int, i as int));
    }
    assert(chars@.subrange(from as int, from as int) =~= Seq::<char>::empty());
    res
}

/// The length of `s` in UTF-8 bytes.
pub open spec fn byte_len_spec(s: Seq<char>) -> nat {
    vstd::utf8::encode_utf8(s).len()
}

pub fn byte_len(s: &str) -> (res: usize)
    ensures
        res == byte_len_spec(s@),
{
    s.as_bytes().len()
}

/// The length of a character in UTF-8 bytes.
pub fn char_width(c: char) -> (res: usize)
    ensures
        res == byte_len_spec(seq![c]),
        1 <= res <= 4,
{
    proof {
        vstd::utf8::char_is_scalar(c);
        assert(seq![c].drop_first() =~= Seq::<char>::empty());
        assert(vstd::utf8::encode_utf8(Seq::<char>::empty()) =~= Seq::<u8>::empty());
    }
    let u = c as u32;
    if u <= 0x7f {
        1
    } else if u <= 0x7ff {
        2
    } else if u <= 0xffff {
        3
    } else {
        4
    }
}

/// The bytes of two texts put together are the bytes of both.
pub proof fn lemma_byte_len_add(a: Seq<char>, b: Seq<char>)
    ensures
        byte_len_spec(a + b) == byte_len_spec(a) + byte_len_spec(b),
    decreases a.len(),
{
    if a.len() == 0 {
        assert(a + b =~= b);
    } else {
        assert((a + b).drop_first() =~= a.drop_first() + b);
        lemma_byte_len_add(a.drop_first(), b);
    }
}

/// How many characters of `s`, counted down from `n`, fit in `max` bytes.
pub open spec fn fitting(s: Seq<char>, max: nat, n: int) -> int
    decreases n,
{
    if n <= 0 || byte_len_spec(s.take(n)) <= max {
        n
    } else {
        fitting(s, max, n - 1)
    }
}

/// The longest beginning of `s` that fits in `max` bytes.
pub open spec fn truncated(s: Seq<char>, max: nat) -> Seq<char> {
    s.take(fitting(s, max, s.len() as int))
}

/// A beginning that fits, and whose next character does not, is the longest.
proof fn lemma_fitting(s: Seq<char>, max: nat, n: int, m: int)
    requires
        0 <= n <= m <= s.len(),
        byte_len_spec(s.take(n)) <= max,
        n < s.len() ==> byte_len_spec(s.take(n + 1)) > max,
    ensures
        fitting(s, max, m) == n,
    decreases m,
{
    if n < m {
        lemma_byte_len_add(s.take(n + 1), s.take(m).skip(n + 1));
        assert(s.take(n + 1) + s.take(m).skip(n + 1) =~= s.take(m));
        lemma_fitting(s, max, n, m - 1);
    }
}

/// The longest beginning of `s` that fits in `max` bytes.
pub fn truncate(s: &str, max: usize) -> (res: String)
    ensures
        res@ == truncated(s@, max as nat),
{
    let chars = chars_of(s);
    let mut n: usize = 0;
    let mut used: usize = 0;
    assert(s@.take(0) =~= Seq::<char>::empty());
    while n < chars.len()
        invariant
            chars@ == s@,
            n <= chars@.len(),
            used == byte_len_spec(s@.take(n as int)),
            used <= max,
        decreases chars@.len() - n,
    {
        let width = char_width(chars[n]);
        proof {
            let one = seq![s@[n as int]];
            lemma_byte_len_add(s@.take(n as int), one);
            assert(s@.take(n as int) + one =~= s@.take(n + 1));
        }
        if width > max - used {
            proof {
                lemma_fitting(s@, max as nat, n as int, s@.len() as int);
            }
            let head = string_of(&chars, 0, n);
            assert(head@ =~= s@.take(n as int));
            return head;
        }
        used += width;
        n += 1;
    }
    proof {
        lemma_fitting(s@, max as nat, n as int, s@.len() as int);
        assert(s@.take(n as int) =~= s@);
    }
    s.to_string()
}

pub fn same_text(a: &str, b: &str) -> (res: bool)
    ensures
        res == (a@ == b@),
{
    let x = chars_of(a);
    let y = chars_of(b);
    if x.len() != y.len() {
        return false;
    }
    let mut i: usize = 0;
    while i < x.len()
        invariant
            x@ == a@,
            y@ == b@,
            x@.len() == y@.len(),
            i <= x@.len(),
            forall|k: int| 0 <= k < i ==> x@[k] == y@[k],
        decreases x@.len() - i,
    {
        if x[i] != y[i] {
            return false;
        }
        i += 1;
    }
    assert(a@ =~= b@);
    true
}

// ---------------------------------------------------------------------------
// Case
// ---------------------------------------------------------------------------

/// `c` with an ASCII capital turned into its small letter.
pub open spec fn lower_char(c: char) -> char {
    if 'A' <= c <= 'Z' {
        ((c as u8) + 32) as char
    } else {
        c
    }
}

/// `s` with every ASCII capital turned into its small letter.
pub open spec fn lower(s: Seq<char>) -> Seq<char> {
    s.map_values(|c: char| lower_char(c))
}

pub fn to_lower(s: &str) -> (res: String)
    ensures
        res@ == lower(s@),
{
    let chars = chars_of(s);
    let mut res = String::new();
    let mut i: usize = 0;
    while i < chars.len()
        invariant
            chars@ == s@,
            i <= chars@.len(),
            res@ == lower(s@).take(i as int),
        decreases chars@.len() - i,
    {
        let c = chars[i];
        let l = if 'A' <= c && c <= 'Z' {
            ((c as u8) + 32) as char
        } else {
            c
        };
        res.push(l);
        i += 1;
        assert(res@ =~= lower(s@).take(i as int));
    }
    assert(lower(s@).take(i as int) =~= lower(s@));
    res
}

// ---------------------------------------------------------------------------
// Searching
// ---------------------------------------------------------------------------

/// Whether `p` stands in `s` at position `i`.
pub open spec fn match_at(s: Seq<char>, p: Seq<char>, i: int) -> bool {
    0 <= i && i + p.len() <= s.len() && s.subrange(i, i + p.len()) == p
}

pub open spec fn has_prefix(s: Seq<char>, p: Seq<char>) -> bool {
    match_at(s, p, 0)
}

pub open spec fn has_suffix(s: Seq<char>, p: Seq<char>) -> bool {
    match_at(s, p, s.len() - p.len())
}

/// Whether `p` stands somewhere in `s`.
pub open spec fn has_infix(s: Seq<char>, p: Seq<char>) -> bool {
    exists|i: int| match_at(s, p, i)
}

/// The last position not above `n` at which `p` stands in `s`.
pub open spec fn last_match(s: Seq<char>, p: Seq<char>, n: int) -> Option<int>
    decreases n + 1,
{
    if n < 0 {
        None
    } else if match_at(s, p, n) {
        Some(n)
    } else {
        last_match(s, p, n - 1)
    }
}

pub fn matches_at(s: &Vec<char>, p: &Vec<char>, i: usize) -> (res: bool)
    ensures
        res == match_at(s@, p@, i as int),
{
    if s.len() < p.len() || i > s.len() - p.len() {
        return false;
    }
    let mut k: usize = 0;
    while k < p.len()
        invariant
            i + p.len() <= s.len(),
            k <= p@.len(),
            forall|j: int| 0 <= j < k ==> s@[i + j] == p@[j],
        decreases p@.len() - k,
    {
        if s[i + k] != p[k] {
            assert(s@.subrange(i as int, i + p@.len())[k as int] != p@[k as int]);
            return false;
        }
        k += 1;
    }
    assert(s@.subrange(i as int, i + p@.len()) =~= p@);
    true
}

pub fn starts_with(s: &str, p: &str) -> (res: bool)
    ensures
        res == has_prefix(s@, p@),
{
    matches_at(&chars_of(s), &chars_of(p), 0)
}

pub fn ends_with(s: &str, p: &str) -> (res: bool)
    ensures
        res == has_suffix(s@, p@),
{
    let x = chars_of(s);
    let y = chars_of(p);
    if x.len() < y.len() {
        return false;
    }
    matches_at(&x, &y, x.len() - y.len())
}

pub fn contains(s: &str, p: &str) -> (res: bool)
    ensures
        res == has_infix(s@, p@),
{
    let x = chars_of(s);
    let y = chars_of(p);
    let mut i: usize = 0;
    while i < x.len()
        invariant
            x@ == s@,
            y@ == p@,
            i <= x@.len(),
            forall|k: int| 0 <= k < i ==> !match_at(s@, p@, k),
        decreases x@.len() - i,
    {
        if matches_at(&x, &y, i) {
            return true;
        }
        i += 1;
    }
    matches_at(&x, &y, i)
}

/// `s` without the prefix `p`, where it has it.
pub fn strip_prefix(s: &str, p: &str) -> (res: Option<String>)
    ensures
        res is Some <==> has_prefix(s@, p@),
        res matches Some(rest) ==> rest@ == s@.skip(p@.len() as int),
{
    let x = chars_of(s);
    let y = chars_of(p);
    if matches_at(&x, &y, 0) {
        let rest = string_of(&x, y.len(), x.len());
        assert(rest@ =~= s@.skip(p@.len() as int));
        Some(rest)
    } else {
        None
    }
}

/// `s` without the suffix `p`, where it has it.
pub fn strip_suffix(s: &str, p: &str) -> (res: Option<String>)
    ensures
        res is Some <==> has_suffix(s@, p@),
        res matches Some(rest) ==> rest@ == s@.take(s@.len() - p@.len()),
{
    if !ends_with(s, p) {
        return None;
    }
    let x = chars_of(s);
    let y = chars_of(p);
    let rest = string_of(&x, 0, x.len() - y.len());
    assert(rest@ =~= s@.take(s@.len() - p@.len()));
    Some(rest)
}

/// What stands before and after the last `p` in `s`.
pub open spec fn rsplit_once_spec(s: Seq<char>, p: Seq<char>) -> Option<(Seq<char>, Seq<char>)> {
    match last_match(s, p, s.len() as int) {
        Some(i) => Some((s.take(i), s.skip(i + p.len()))),
        None => None,
    }
}

pub fn rsplit_once(s: &str, p: &str) -> (res: Option<(String, String)>)
    ensures
        match res {
            Some(r) => rsplit_once_spec(s@, p@) == Some((r.0@, r.1@)),
            None => rsplit_once_spec(s@, p@) is None,
        },
{
    let x = chars_of(s);
    let y = chars_of(p);
    let mut i: usize = x.len();
    loop
        invariant
            x@ == s@,
            y@ == p@,
            i <= x@.len(),
            last_match(s@, p@, s@.len() as int) == last_match(s@, p@, i as int),
        decreases i,
    {
        if matches_at(&x, &y, i) {
            assert(i + y.len() <= x.len());
            let before = string_of(&x, 0, i);
            let after = string_of(&x, i + y.len(), x.len());
            assert(before@ =~= s@.take(i as int));
            assert(after@ =~= s@.skip(i + p@.len()));
            return Some((before, after));
        }
        if i == 0 {
            assert(last_match(s@, p@, -1) is None);
            return None;
        }
        i -= 1;
    }
}

// ---------------------------------------------------------------------------
// Trimming
// ---------------------------------------------------------------------------

/// `s` without its leading characters of the class.
pub open spec fn trim_start_spec(s: Seq<char>, class: CharClass) -> Seq<char>
    decreases s.len(),
{
    if s.len() > 0 && class.has(s[0]) {
        trim_start_spec(s.drop_first(), class)
    } else {
        s
    }
}

/// `s` without its trailing characters of the class.
pub open spec fn trim_end_spec(s: Seq<char>, class: CharClass) -> Seq<char>
    decreases s.len(),
{
    if s.len() > 0 && class.has(s.last()) {
        trim_end_spec(s.drop_last(), class)
    } else {
        s
    }
}

/// `s` without its leading and trailing characters of the class.
pub open spec fn trim_class_spec(s: Seq<char>, class: CharClass) -> Seq<char> {
    trim_end_spec(trim_start_spec(s, class), class)
}

/// `s` without its leading and trailing white space.
pub open spec fn trim_spec(s: Seq<char>) -> Seq<char> {
    trim_class_spec(s, CharClass::White)
}

/// `s` without repeated `p` at its end.
pub open spec fn trim_end_text_spec(s: Seq<char>, p: Seq<char>) -> Seq<char>
    decreases s.len(),
{
    if p.len() > 0 && has_suffix(s, p) {
        trim_end_text_spec(s.take(s.len() - p.len()), p)
    } else {
        s
    }
}

pub fn trim_start_class(s: &str, class: CharClass) -> (res: String)
    ensures
        res@ == trim_start_spec(s@, class),
{
    let x = chars_of(s);
    let mut i: usize = 0;
    assert(s@.skip(0) =~= s@);
    while i < x.len() && class.matches(x[i])
        invariant
            x@ == s@,
            i <= x@.len(),
            trim_start_spec(s@, class) == trim_start_spec(s@.skip(i as int), class),
        decreases x@.len() - i,
    {
        assert(s@.skip(i as int).drop_first() =~= s@.skip(i + 1));
        i += 1;
    }
    let res = string_of(&x, i, x.len());
    assert(res@ =~= s@.skip(i as int));
    res
}

pub fn trim_class(s: &str, class: CharClass) -> (res: String)
    ensures
        res@ == trim_class_spec(s@, class),
{
    let head = trim_start_class(s, class);
    let x = chars_of(head.as_str());
    let mut j: usize = x.len();
    assert(head@.take(j as int) =~= head@);
    while j > 0 && class.matches(x[j - 1])
        invariant
            x@ == head@,
            j <= x@.len(),
            trim_end_spec(head@, class) == trim_end_spec(head@.take(j as int), class),
        decreases j,
    {
        assert(head@.take(j as int).drop_last() =~= head@.take(j - 1));
        j -= 1;
    }
    let res = string_of(&x, 0, j);
    assert(res@ =~= head@.take(j as int));
    res
}

pub fn trim(s: &str) -> (res: String)
    ensures
        res@ == trim_spec(s@),
{
    trim_class(s, CharClass::White)
}

/// Whether `s` holds nothing but white space.
pub fn is_blank(s: &str) -> (res: bool)
    ensures
        res == (trim_spec(s@).len() == 0),
{
    trim(s).as_str().is_empty()
}

pub fn trim_end_text(s: &str, p: &str) -> (res: String)
    ensures
        res@ == trim_end_text_spec(s@, p@),
{
    let x = chars_of(s);
    let y = chars_of(p);
    let mut j: usize = x.len();
    assert(s@.take(j as int) =~= s@);
    while y.len() > 0 && j >= y.len() && matches_at(&x, &y, j - y.len())
        invariant
            x@ == s@,
            y@ == p@,
            j <= x@.len(),
            trim_end_text_spec(s@, p@) == trim_end_text_spec(s@.take(j as int), p@),
        decreases j,
    {
        assert(s@.take(j as int).subrange(j - p@.len(), j as int) =~= s@.subrange(
            j - p@.len(),
            j as int,
        ));
        assert(s@.take(j as int).take(j - p@.len()) =~= s@.take(j - p@.len()));
        j -= y.len();
    }
    assert(j >= p@.len() ==> s@.take(j as int).subrange(j - p@.len(), j as int) =~= s@.subrange(
        j - p@.len(),
        j as int,
    ));
    let res = string_of(&x, 0, j);
    assert(res@ =~= s@.take(j as int));
    res
}

// ---------------------------------------------------------------------------
// Splitting and joining
// ---------------------------------------------------------------------------

/// The parts of `s` between characters of the class, empty ones too.
pub open spec fn fields_spec(s: Seq<char>, class: CharClass) -> Seq<Seq<char>>
    decreases s.len(),
{
    if s.len() == 0 {
        seq![Seq::<char>::empty()]
    } else {
        let before = fields_spec(s.drop_last(), class);
        if class.has(s.last()) {
            before.push(Seq::<char>::empty())
        } else {
            before.drop_last().push(before.last().push(s.last()))
        }
    }
}

pub fn fields(s: &str, class: CharClass) -> (res: Vec<String>)
    ensures
        views(res@) == fields_spec(s@, class),
        res@.len() >= 1,
{
    let x = chars_of(s);
    let mut res: Vec<String> = Vec::new();
    let mut part = String::new();
    let mut i: usize = 0;
    assert(views(res@).push(part@) =~= seq![Seq::<char>::empty()]);
    while i < x.len()
        invariant
            x@ == s@,
            i <= x@.len(),
            views(res@).push(part@) == fields_spec(s@.take(i as int), class),
        decreases x@.len() - i,
    {
        let c = x[i];
        let ghost done = views(res@);
        let ghost open = part@;
        assert(s@.take(i + 1).drop_last() =~= s@.take(i as int));
        assert(done.push(open).drop_last() =~= done);
        if class.matches(c) {
            res.push(part);
            part = String::new();
            assert(views(res@) =~= done.push(open));
        } else {
            part.push(c);
        }
        i += 1;
        assert(views(res@).push(part@) =~= fields_spec(s@.take(i as int), class));
    }
    assert(s@.take(i as int) =~= s@);
    let ghost done = views(res@);
    let ghost open = part@;
    res.push(part);
    assert(views(res@) =~= done.push(open));
    res
}

/// The texts that are not empty.
pub open spec fn nonempty_spec(parts: Seq<Seq<char>>) -> Seq<Seq<char>>
    decreases parts.len(),
{
    if parts.len() == 0 {
        parts
    } else {
        let before = nonempty_spec(parts.drop_last());
        if parts.last().len() == 0 {
            before
        } else {
            before.push(parts.last())
        }
    }
}

pub fn nonempty(parts: &Vec<String>) -> (res: Vec<String>)
    ensures
        views(res@) == nonempty_spec(views(parts@)),
{
    let mut res: Vec<String> = Vec::new();
    let mut i: usize = 0;
    assert(views(res@) =~= nonempty_spec(views(parts@).take(0)));
    while i < parts.len()
        invariant
            i <= parts@.len(),
            views(res@) == nonempty_spec(views(parts@).take(i as int)),
        decreases parts@.len() - i,
    {
        let ghost done = views(res@);
        assert(views(parts@).take(i + 1).drop_last() =~= views(parts@).take(i as int));
        if !parts[i].as_str().is_empty() {
            res.push(parts[i].clone());
            assert(views(res@) =~= done.push(parts@[i as int]@));
        }
        i += 1;
    }
    assert(views(parts@).take(i as int) =~= views(parts@));
    res
}

/// The words of `s`: what stands between white space.
pub open spec fn words_spec(s: Seq<char>) -> Seq<Seq<char>> {
    nonempty_spec(fields_spec(s, CharClass::White))
}

pub fn words(s: &str) -> (res: Vec<String>)
    ensures
        views(res@) == words_spec(s@),
{
    nonempty(&fields(s, CharClass::White))
}

/// `line` without a carriage return at its end.
pub open spec fn without_cr(line: Seq<char>) -> Seq<char> {
    if line.len() > 0 && line.last() == '\r' {
        line.drop_last()
    } else {
        line
    }
}

/// The lines of `s`. A line ends at a line feed, and a carriage return before
/// that line feed belongs to the ending. What follows the last line feed is a
/// line of its own unless it is empty.
pub open spec fn lines_spec(s: Seq<char>) -> Seq<Seq<char>> {
    let parts = fields_spec(s, CharClass::Only('\n'));
    let ended = parts.drop_last().map_values(|line: Seq<char>| without_cr(line));
    if parts.last().len() == 0 {
        ended
    } else {
        ended.push(parts.last())
    }
}

pub fn lines(s: &str) -> (res: Vec<String>)
    ensures
        views(res@) == lines_spec(s@),
{
    let parts = fields(s, CharClass::Only('\n'));
    let ghost all = fields_spec(s@, CharClass::Only('\n'));
    let ghost ended = all.drop_last().map_values(|line: Seq<char>| without_cr(line));
    let last = parts.len() - 1;
    let mut res: Vec<String> = Vec::new();
    let mut i: usize = 0;
    assert(views(res@) =~= ended.take(0));
    while i < last
        invariant
            views(parts@) == all,
            last == parts@.len() - 1,
            i <= last,
            ended == all.drop_last().map_values(|line: Seq<char>| without_cr(line)),
            views(res@) == ended.take(i as int),
        decreases last - i,
    {
        let ghost done = views(res@);
        let x = chars_of(parts[i].as_str());
        assert(x@ == all[i as int]);
        let end = if x.len() > 0 && x[x.len() - 1] == '\r' {
            x.len() - 1
        } else {
            x.len()
        };
        let line = string_of(&x, 0, end);
        assert(line@ =~= without_cr(all[i as int]));
        assert(ended[i as int] == line@);
        let ghost piece = line@;
        res.push(line);
        assert(views(res@) =~= done.push(piece));
        assert(ended.take(i + 1) =~= ended.take(i as int).push(piece));
        i += 1;
    }
    assert(ended.take(i as int) =~= ended);
    assert(parts@[last as int]@ == all.last());
    if !parts[last].as_str().is_empty() {
        res.push(parts[last].clone());
        assert(views(res@) =~= ended.push(all.last()));
    }
    res
}

/// The texts one after the other with `sep` between them.
pub open spec fn join_spec(parts: Seq<Seq<char>>, sep: Seq<char>) -> Seq<char>
    decreases parts.len(),
{
    if parts.len() == 0 {
        Seq::empty()
    } else if parts.len() == 1 {
        parts[0]
    } else {
        join_spec(parts.drop_last(), sep) + sep + parts.last()
    }
}

pub fn join(parts: &Vec<String>, sep: &str) -> (res: String)
    ensures
        res@ == join_spec(views(parts@), sep@),
{
    let mut res = String::new();
    let mut i: usize = 0;
    while i < parts.len()
        invariant
            i <= parts@.len(),
            res@ == join_spec(views(parts@).take(i as int), sep@),
        decreases parts@.len() - i,
    {
        assert(views(parts@).take(i + 1).drop_last() =~= views(parts@).take(i as int));
        if i > 0 {
            res.append(sep);
        }
        res.append(parts[i].as_str());
        i += 1;
        assert(res@ =~= join_spec(views(parts@).take(i as int), sep@));
    }
    assert(views(parts@).take(i as int) =~= views(parts@));
    res
}

/// `s` with `with` in place of each `c`.
pub open spec fn replace_spec(s: Seq<char>, c: char, with: Seq<char>) -> Seq<char>
    decreases s.len(),
{
    if s.len() == 0 {
        s
    } else if s.last() == c {
        replace_spec(s.drop_last(), c, with) + with
    } else {
        replace_spec(s.drop_last(), c, with).push(s.last())
    }
}

pub fn replace(s: &str, c: char, with: &str) -> (res: String)
    ensures
        res@ == replace_spec(s@, c, with@),
{
    let x = chars_of(s);
    let mut res = String::new();
    let mut i: usize = 0;
    assert(res@ =~= s@.take(0));
    while i < x.len()
        invariant
            x@ == s@,
            i <= x@.len(),
            res@ == replace_spec(s@.take(i as int), c, with@),
        decreases x@.len() - i,
    {
        assert(s@.take(i + 1).drop_last() =~= s@.take(i as int));
        if x[i] == c {
            res.append(with);
        } else {
            res.push(x[i]);
        }
        i += 1;
    }
    assert(s@.take(i as int) =~= s@);
    res
}

/// Whether one of the strings holds this text.
pub fn has_text(list: &Vec<String>, text: &str) -> (res: bool)
    ensures
        res == views(list@).contains(text@),
{
    let mut i: usize = 0;
    while i < list.len()
        invariant
            i <= list@.len(),
            forall|k: int| 0 <= k < i ==> views(list@)[k] != text@,
        decreases list@.len() - i,
    {
        if same_text(list[i].as_str(), text) {
            assert(views(list@)[i as int] == text@);
            return true;
        }
        i += 1;
    }
    false
}

/// A copy of the strings.
pub fn copy_texts(list: &Vec<String>) -> (res: Vec<String>)
    ensures
        res@ == list@,
{
    let mut res: Vec<String> = Vec::new();
    let mut i: usize = 0;
    while i < list.len()
        invariant
            i <= list@.len(),
            res@ == list@.take(i as int),
        decreases list@.len() - i,
    {
        res.push(list[i].clone());
        i += 1;
        assert(res@ =~= list@.take(i as int));
    }
    assert(list@.take(i as int) =~= list@);
    res
}

/// A copy of an optional string.
pub fn copy_opt(o: &Option<String>) -> (res: Option<String>)
    ensures
        res == *o,
{
    match o {
        Some(s) => Some(s.clone()),
        None => None,
    }
}

/// `list` with `text` behind it, unless it is there already.
pub open spec fn push_new_spec(list: Seq<Seq<char>>, text: Seq<char>) -> Seq<Seq<char>> {
    if list.contains(text) {
        list
    } else {
        list.push(text)
    }
}

pub fn push_new(list: &mut Vec<String>, text: String)
    ensures
        views(final(list)@) == push_new_spec(views(old(list)@), text@),
        views(old(list)@).contains(text@) ==> final(list)@ == old(list)@,
        !views(old(list)@).contains(text@) ==> final(list)@ == old(list)@.push(text),
{
    if !has_text(list, text.as_str()) {
        list.push(text);
        assert(views(list@) =~= views(old(list)@).push(text@));
    }
}

/// The texts in order, each where it first occurs.
pub open spec fn distinct_spec(list: Seq<Seq<char>>) -> Seq<Seq<char>>
    decreases list.len(),
{
    if list.len() == 0 {
        list
    } else {
        push_new_spec(distinct_spec(list.drop_last()), list.last())
    }
}

pub fn distinct(list: &Vec<String>) -> (res: Vec<String>)
    ensures
        views(res@) == distinct_spec(views(list@)),
{
    let mut res: Vec<String> = Vec::new();
    let mut i: usize = 0;
    assert(views(res@) =~= distinct_spec(views(list@).take(0)));
    while i < list.len()
        invariant
            i <= list@.len(),
            views(res@) == distinct_spec(views(list@).take(i as int)),
        decreases list@.len() - i,
    {
        assert(views(list@).take(i + 1).drop_last() =~= views(list@).take(i as int));
        push_new(&mut res, list[i].clone());
        i += 1;
    }
    assert(views(list@).take(i as int) =~= views(list@));
    res
}

/// Nothing occurs twice in what `distinct_spec` keeps, and it keeps every text.
pub proof fn lemma_distinct(list: Seq<Seq<char>>)
    ensures
        distinct_spec(list).no_duplicates(),
        forall|t: Seq<char>| distinct_spec(list).contains(t) <==> list.contains(t),
    decreases list.len(),
{
    if list.len() > 0 {
        let head = list.drop_last();
        lemma_distinct(head);
        let kept = distinct_spec(head);
        assert forall|t: Seq<char>| distinct_spec(list).contains(t) <==> list.contains(t) by {
            if list.contains(t) {
                let i = choose|i: int| 0 <= i < list.len() && list[i] == t;
                if i < head.len() {
                    assert(head[i] == t);
                    assert(head.contains(t));
                    let k = choose|k: int| 0 <= k < kept.len() && kept[k] == t;
                    assert(distinct_spec(list)[k] == t);
                } else if !kept.contains(t) {
                    assert(distinct_spec(list)[kept.len() as int] == t);
                }
            }
            if distinct_spec(list).contains(t) {
                let k = choose|k: int|
                    0 <= k < distinct_spec(list).len() && distinct_spec(list)[k] == t;
                if k < kept.len() {
                    assert(kept[k] == t);
                    assert(head.contains(t));
                    let i = choose|i: int| 0 <= i < head.len() && head[i] == t;
                    assert(list[i] == t);
                } else {
                    assert(list[list.len() - 1] == t);
                }
            }
        }
    }
}

} // verus!
