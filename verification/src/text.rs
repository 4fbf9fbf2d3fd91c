//! Character-level helpers shared by every renderer.

use vstd::prelude::*;
use vstd::string::StringSliceAdditionalSpecFns;

verus! {

/// The characters of a string slice.
pub fn chars_of(s: &str) -> (out: Vec<char>)
    ensures
        out@ == s@,
{
    broadcast use vstd::string::axiom_spec_iter;
    let mut out: Vec<char> = Vec::new();
    for c in it: s.chars()
        invariant
            it.seq() == s@,
            out@ == it.seq().take(it.index() as int),
    {
        out.push(c);
    }
    out
}

/// A string holding exactly these characters.
#[verifier::external_body]
pub(crate) fn string_of(chars: &Vec<char>) -> (out: String)
    ensures
        out@ == chars@,
{
    chars.iter().collect()
}

/// The decimal digits of a natural number, most significant first.
pub open spec fn digits_of(n: nat) -> Seq<char>
    decreases n,
{
    if n < 10 {
        seq![digit_char(n)]
    } else {
        digits_of(n / 10).push(digit_char(n % 10))
    }
}

pub open spec fn digit_char(d: nat) -> char {
    ((d + 48) as u8) as char
}

/// How Rust's `Display` writes an integer.
pub open spec fn decimal(n: int) -> Seq<char> {
    if n < 0 {
        seq!['-'] + digits_of((-n) as nat)
    } else {
        digits_of(n as nat)
    }
}

fn digits_u64(n: u64) -> (out: Vec<char>)
    ensures
        out@ == digits_of(n as nat),
    decreases n,
{
    if n < 10 {
        let mut v = Vec::new();
        v.push(((n as u8) + 48) as char);
        v
    } else {
        let mut v = digits_u64(n / 10);
        v.push((((n % 10) as u8) + 48) as char);
        v
    }
}

/// `n.to_string()` for an unsigned integer.
pub fn digits_u128(n: u128) -> (out: Vec<char>)
    ensures
        out@ == digits_of(n as nat),
    decreases n,
{
    if n < 10 {
        let mut v = Vec::new();
        v.push(((n as u8) + 48) as char);
        v
    } else {
        let mut v = digits_u128(n / 10);
        v.push((((n % 10) as u8) + 48) as char);
        v
    }
}

/// `n.to_string()` for a signed integer.
pub fn decimal_i64(n: i64) -> (out: Vec<char>)
    ensures
        out@ == decimal(n as int),
{
    if n < 0 {
        let m: u64 = if n == i64::MIN { 9223372036854775808u64 } else { (-n) as u64 };
        let mut v = Vec::new();
        v.push('-');
        let mut d = digits_u64(m);
        v.append(&mut d);
        v
    } else {
        digits_u64(n as u64)
    }
}

} // verus!

verus! {

/// `parts` joined with `sep` between neighbours, as `[..].join(sep)` does.
pub open spec fn join(parts: Seq<Seq<char>>, sep: Seq<char>) -> Seq<char>
    decreases parts.len(),
{
    if parts.len() == 0 {
        Seq::empty()
    } else if parts.len() == 1 {
        parts[0]
    } else {
        join(parts.drop_last(), sep) + sep + parts.last()
    }
}

pub proof fn lemma_join_push(parts: Seq<Seq<char>>, sep: Seq<char>, next: Seq<char>)
    ensures
        join(parts.push(next), sep) == if parts.len() == 0 {
            next
        } else {
            join(parts, sep) + sep + next
        },
{
    assert(parts.push(next).drop_last() =~= parts);
}

/// The character sequences held by a list of character vectors.
pub open spec fn views(parts: Seq<Vec<char>>) -> Seq<Seq<char>> {
    parts.map_values(|v: Vec<char>| v@)
}

/// `parts.join(sep)`.
pub fn join_parts(parts: &Vec<Vec<char>>, sep: &str) -> (out: Vec<char>)
    ensures
        out@ == join(views(parts@), sep@),
{
    let sep = chars_of(sep);
    let mut out: Vec<char> = Vec::new();
    let mut i: usize = 0;
    while i < parts.len()
        invariant
            i <= parts.len(),
            out@ == join(views(parts@).take(i as int), sep@),
        decreases parts.len() - i,
    {
        proof {
            assert(views(parts@).take(i + 1) =~= views(parts@).take(i as int).push(parts[i as int]@));
            lemma_join_push(views(parts@).take(i as int), sep@, parts[i as int]@);
        }
        if i > 0 {
            append_chars(&mut out, &sep);
        }
        append_chars(&mut out, &parts[i]);
        i = i + 1;
    }
    assert(views(parts@).take(i as int) =~= views(parts@));
    out
}

/// Appends a copy of `more`.
pub fn append_chars(out: &mut Vec<char>, more: &Vec<char>)
    ensures
        final(out)@ == old(out)@ + more@,
{
    let mut i: usize = 0;
    let ghost start = out@;
    while i < more.len()
        invariant
            i <= more.len(),
            out@ == start + more@.take(i as int),
        decreases more.len() - i,
    {
        out.push(more[i]);
        i = i + 1;
        assert(out@ =~= start + more@.take(i as int));
    }
    assert(more@.take(i as int) =~= more@);
}

/// Appends the characters of a string slice.
pub fn append_str(out: &mut Vec<char>, more: &str)
    ensures
        final(out)@ == old(out)@ + more@,
{
    let c = chars_of(more);
    append_chars(out, &c);
}

pub open spec fn spaces(n: int) -> Seq<char>
    decreases n,
{
    if n <= 0 {
        Seq::empty()
    } else {
        spaces(n - 1).push(' ')
    }
}

/// `format!("{s:<width$}")`: padded on the right with spaces to `width` characters.
pub open spec fn pad_right(s: Seq<char>, width: int) -> Seq<char> {
    s + spaces(width - s.len())
}

/// `format!("{s:>width$}")`: padded on the left with spaces to `width` characters.
pub open spec fn pad_left(s: Seq<char>, width: int) -> Seq<char> {
    spaces(width - s.len()) + s
}

pub proof fn lemma_spaces_len(n: int)
    ensures
        spaces(n).len() == if n <= 0 { 0 } else { n },
    decreases n,
{
    if n > 0 {
        lemma_spaces_len(n - 1);
    }
}

fn push_spaces(out: &mut Vec<char>, n: u128)
    ensures
        final(out)@ == old(out)@ + spaces(n as int),
{
    let mut i: u128 = 0;
    let ghost start = out@;
    while i < n
        invariant
            i <= n,
            out@ == start + spaces(i as int),
        decreases n - i,
    {
        out.push(' ');
        i = i + 1;
        assert(out@ =~= start + spaces(i as int));
    }
}

/// Appends `s` padded on the right to `width` characters.
pub fn append_padded_right(out: &mut Vec<char>, s: &Vec<char>, width: u128)
    ensures
        final(out)@ == old(out)@ + pad_right(s@, width as int),
{
    append_chars(out, s);
    if (s.len() as u128) < width {
        push_spaces(out, width - s.len() as u128);
    } else {
        assert(spaces(width - s@.len()) =~= Seq::<char>::empty());
    }
    assert(out@ =~= old(out)@ + pad_right(s@, width as int));
}

/// Appends `s` padded on the left to `width` characters.
pub fn append_padded_left(out: &mut Vec<char>, s: &Vec<char>, width: u128)
    ensures
        final(out)@ == old(out)@ + pad_left(s@, width as int),
{
    if (s.len() as u128) < width {
        push_spaces(out, width - s.len() as u128);
    } else {
        assert(spaces(width - s@.len()) =~= Seq::<char>::empty());
    }
    append_chars(out, s);
    assert(out@ =~= old(out)@ + pad_left(s@, width as int));
}

/// How many bytes a character takes in UTF-8.
pub open spec fn char_utf8_len(c: char) -> nat {
    if (c as u32) < 0x80 {
        1
    } else if (c as u32) < 0x800 {
        2
    } else if (c as u32) < 0x10000 {
        3
    } else {
        4
    }
}

/// `String::len`: the length in bytes of the UTF-8 encoding.
pub open spec fn utf8_len(s: Seq<char>) -> nat
    decreases s.len(),
{
    if s.len() == 0 {
        0
    } else {
        utf8_len(s.drop_last()) + char_utf8_len(s.last())
    }
}

pub proof fn lemma_utf8_len_bounds(s: Seq<char>)
    ensures
        s.len() <= utf8_len(s) <= 4 * s.len(),
    decreases s.len(),
{
    if s.len() > 0 {
        lemma_utf8_len_bounds(s.drop_last());
    }
}

/// The UTF-8 length of some characters.
pub fn utf8_len_of(s: &Vec<char>) -> (n: u128)
    ensures
        n == utf8_len(s@),
        n <= 4 * s@.len(),
{
    let mut n: u128 = 0;
    let mut i: usize = 0;
    while i < s.len()
        invariant
            i <= s.len(),
            n == utf8_len(s@.take(i as int)),
            n <= 4 * i,
        decreases s.len() - i,
    {
        proof {
            assert(s@.take(i + 1).drop_last() =~= s@.take(i as int));
            lemma_utf8_len_bounds(s@.take(i as int));
        }
        let c = s[i] as u32;
        let w: u128 = if c < 0x80 { 1 } else if c < 0x800 { 2 } else if c < 0x10000 { 3 } else { 4 };
        n = n + w;
        i = i + 1;
    }
    assert(s@.take(i as int) =~= s@);
    proof { lemma_utf8_len_bounds(s@); }
    n
}

/// `char::is_whitespace`: the Unicode `White_Space` property.
pub open spec fn is_whitespace(c: char) -> bool {
    let u = c as u32;
    ||| 0x09 <= u <= 0x0D
    ||| u == 0x20
    ||| u == 0x85
    ||| u == 0xA0
    ||| u == 0x1680
    ||| 0x2000 <= u <= 0x200A
    ||| u == 0x2028
    ||| u == 0x2029
    ||| u == 0x202F
    ||| u == 0x205F
    ||| u == 0x3000
}

pub fn is_whitespace_char(c: char) -> (b: bool)
    ensures
        b == is_whitespace(c),
{
    let u = c as u32;
    (0x09 <= u && u <= 0x0D) || u == 0x20 || u == 0x85 || u == 0xA0 || u == 0x1680 || (0x2000
        <= u && u <= 0x200A) || u == 0x2028 || u == 0x2029 || u == 0x202F || u == 0x205F || u
        == 0x3000
}

/// `str::trim_end`.
pub open spec fn trim_end(s: Seq<char>) -> Seq<char>
    decreases s.len(),
{
    if s.len() > 0 && is_whitespace(s.last()) {
        trim_end(s.drop_last())
    } else {
        s
    }
}

/// Trimming the end of `p + s` leaves `p` whole when `s` holds anything but
/// whitespace.
pub proof fn lemma_trim_end_keeps_prefix(p: Seq<char>, s: Seq<char>, j: int)
    requires
        0 <= j < s.len(),
        !is_whitespace(s[j]),
    ensures
        trim_end(p + s) == p + trim_end(s),
    decreases s.len(),
{
    let ps = p + s;
    if is_whitespace(s.last()) {
        assert(j < s.len() - 1);
        assert(ps.drop_last() =~= p + s.drop_last());
        assert(s.drop_last()[j] == s[j]);
        lemma_trim_end_keeps_prefix(p, s.drop_last(), j);
    } else {
        assert(ps.last() == s.last());
    }
}

/// `str::trim_start`.
pub open spec fn trim_start(s: Seq<char>) -> Seq<char>
    decreases s.len(),
{
    if s.len() > 0 && is_whitespace(s[0]) {
        trim_start(s.drop_first())
    } else {
        s
    }
}

/// `str::trim`.
pub open spec fn trim(s: Seq<char>) -> Seq<char> {
    trim_end(trim_start(s))
}

/// Drops trailing whitespace in place.
pub fn trim_end_in_place(s: &mut Vec<char>)
    ensures
        final(s)@ == trim_end(old(s)@),
{
    let ghost whole = s@;
    while s.len() > 0 && is_whitespace_char(s[s.len() - 1])
        invariant
            trim_end(s@) == trim_end(whole),
        decreases s.len(),
    {
        assert(s@.drop_last() =~= s@.subrange(0, s@.len() - 1));
        s.pop();
    }
}

/// The characters of `s` with leading and trailing whitespace removed.
pub fn trimmed(s: &Vec<char>) -> (out: Vec<char>)
    ensures
        out@ == trim(s@),
{
    let mut start: usize = 0;
    assert(s@.subrange(0, s@.len() as int) =~= s@);
    while start < s.len() && is_whitespace_char(s[start])
        invariant
            start <= s.len(),
            trim_start(s@.subrange(start as int, s@.len() as int)) == trim_start(s@),
        decreases s.len() - start,
    {
        assert(s@.subrange(start + 1, s@.len() as int) =~= s@.subrange(start as int, s@.len() as int).drop_first());
        start = start + 1;
    }
    let mut out: Vec<char> = Vec::new();
    let mut i = start;
    while i < s.len()
        invariant
            start <= i <= s.len(),
            out@ == s@.subrange(start as int, i as int),
        decreases s.len() - i,
    {
        out.push(s[i]);
        i = i + 1;
        assert(out@ =~= s@.subrange(start as int, i as int));
    }
    trim_end_in_place(&mut out);
    out
}


/// Whether two character sequences are equal.
pub fn chars_eq(a: &Vec<char>, b: &Vec<char>) -> (eq: bool)
    ensures
        eq == (a@ == b@),
{
    if a.len() != b.len() {
        return false;
    }
    let mut i: usize = 0;
    while i < a.len()
        invariant
            i <= a.len(),
            a.len() == b.len(),
            a@.take(i as int) == b@.take(i as int),
        decreases a.len() - i,
    {
        if a[i] != b[i] {
            assert(a@[i as int] != b@[i as int]);
            return false;
        }
        assert(a@.take(i + 1) =~= a@.take(i as int).push(a@[i as int]));
        assert(b@.take(i + 1) =~= b@.take(i as int).push(b@[i as int]));
        i = i + 1;
    }
    assert(a@.take(i as int) =~= a@);
    assert(b@.take(i as int) =~= b@);
    true
}

/// Whether a string equals a literal.
pub fn str_is(a: &str, b: &str) -> (eq: bool)
    ensures
        eq == (a@ == b@),
{
    let x = chars_of(a);
    let y = chars_of(b);
    chars_eq(&x, &y)
}

/// The characters held by an optional string.
pub open spec fn opt_view(o: Option<String>) -> Option<Seq<char>> {
    match o {
        Some(s) => Some(s@),
        None => None,
    }
}

/// The largest byte length among `parts`, and at least `floor`.
pub open spec fn max_byte_len(parts: Seq<Seq<char>>, floor: nat) -> nat
    decreases parts.len(),
{
    if parts.len() == 0 {
        floor
    } else {
        let rest = max_byte_len(parts.drop_last(), floor);
        if utf8_len(parts.last()) > rest {
            utf8_len(parts.last())
        } else {
            rest
        }
    }
}

/// The strings of a list, as character sequences.
pub open spec fn string_views(v: Seq<String>) -> Seq<Seq<char>> {
    v.map_values(|s: String| s@)
}

/// `list.join(sep)` over strings.
pub fn join_strings(list: &Vec<String>, sep: &str) -> (out: Vec<char>)
    ensures
        out@ == join(string_views(list@), sep@),
{
    let mut parts: Vec<Vec<char>> = Vec::new();
    let mut i: usize = 0;
    while i < list.len()
        invariant
            i <= list.len(),
            parts.len() == i,
            views(parts@) =~= string_views(list@).take(i as int),
        decreases list.len() - i,
    {
        let item: &String = &list[i];
        let c = chars_of(item.as_str());
        assert(c@ == list@[i as int]@);
        let ghost before = parts@;
        parts.push(c);
        assert forall|j: int| 0 <= j < i + 1 implies #[trigger] views(parts@)[j] == string_views(list@)[j] by {
            if j < i {
                assert(parts@[j] == before[j]);
                assert(views(before)[j] == before[j]@);
                assert(views(before)[j] == string_views(list@).take(i as int)[j]);
            }
        }
        i = i + 1;
        assert(views(parts@) =~= string_views(list@).take(i as int));
    }
    assert(string_views(list@).take(i as int) =~= string_views(list@));
    join_parts(&parts, sep)
}

} // verus!

verus! {

pub proof fn lemma_trim_start_empty(s: Seq<char>)
    ensures
        trim_start(s).len() == 0 <==> forall|i: int| 0 <= i < s.len() ==> is_whitespace(#[trigger] s[i]),
    decreases s.len(),
{
    if s.len() > 0 {
        lemma_trim_start_empty(s.drop_first());
        if is_whitespace(s[0]) {
            assert forall|i: int| 0 <= i < s.len() && (forall|k: int| 0 <= k < s.drop_first().len() ==> is_whitespace(#[trigger] s.drop_first()[k])) implies is_whitespace(#[trigger] s[i]) by {
                if i > 0 {
                    assert(s[i] == s.drop_first()[i - 1]);
                }
            }
            assert((forall|i: int| 0 <= i < s.len() ==> is_whitespace(#[trigger] s[i])) ==> (forall|k: int| 0 <= k < s.drop_first().len() ==> is_whitespace(#[trigger] s.drop_first()[k]))) by {
                assert forall|k: int| (forall|i: int| 0 <= i < s.len() ==> is_whitespace(#[trigger] s[i])) && 0 <= k < s.drop_first().len() implies is_whitespace(#[trigger] s.drop_first()[k]) by {
                    assert(s.drop_first()[k] == s[k + 1]);
                }
            }
        }
    }
}

pub proof fn lemma_trim_end_empty(s: Seq<char>)
    ensures
        trim_end(s).len() == 0 <==> forall|i: int| 0 <= i < s.len() ==> is_whitespace(#[trigger] s[i]),
    decreases s.len(),
{
    if s.len() > 0 {
        lemma_trim_end_empty(s.drop_last());
        if is_whitespace(s.last()) {
            assert forall|i: int| 0 <= i < s.len() && (forall|k: int| 0 <= k < s.drop_last().len() ==> is_whitespace(#[trigger] s.drop_last()[k])) implies is_whitespace(#[trigger] s[i]) by {
                if i < s.len() - 1 {
                    assert(s[i] == s.drop_last()[i]);
                }
            }
        }
    }
}

/// A trimmed string is empty exactly when every character is whitespace.
pub proof fn lemma_trim_empty(s: Seq<char>)
    ensures
        trim(s).len() == 0 <==> forall|i: int| 0 <= i < s.len() ==> is_whitespace(#[trigger] s[i]),
{
    let t = trim_start(s);
    lemma_trim_start_suffix(s);
    lemma_trim_end_empty(t);
    let off = s.len() - t.len();
    assert forall|k: int| 0 <= k < t.len() implies t[k] == s[off + k] by {
        assert(t[k] == s.subrange(off, s.len() as int)[k]);
    }
    if forall|i: int| 0 <= i < s.len() ==> is_whitespace(#[trigger] s[i]) {
        assert forall|k: int| 0 <= k < t.len() implies is_whitespace(#[trigger] t[k]) by {
            assert(t[k] == s[off + k]);
        }
    }
    if forall|k: int| 0 <= k < t.len() ==> is_whitespace(#[trigger] t[k]) {
        assert forall|i: int| 0 <= i < s.len() implies is_whitespace(#[trigger] s[i]) by {
            if i >= off {
                assert(t[i - off] == s[i]);
            }
        }
    }
}

/// What `trim_start` keeps is a suffix, and everything it dropped is whitespace.
pub proof fn lemma_trim_start_suffix(s: Seq<char>)
    ensures
        trim_start(s).len() <= s.len(),
        trim_start(s) == s.subrange(s.len() - trim_start(s).len(), s.len() as int),
        forall|i: int| 0 <= i < s.len() - trim_start(s).len() ==> is_whitespace(#[trigger] s[i]),
    decreases s.len(),
{
    if s.len() > 0 && is_whitespace(s[0]) {
        lemma_trim_start_suffix(s.drop_first());
        assert(s.drop_first().subrange(s.drop_first().len() - trim_start(s).len(), s.drop_first().len() as int) =~= s.subrange(s.len() - trim_start(s).len(), s.len() as int));
        assert forall|i: int| 0 <= i < s.len() - trim_start(s).len() implies is_whitespace(#[trigger] s[i]) by {
            if i > 0 {
                assert(s[i] == s.drop_first()[i - 1]);
            }
        }
    } else {
        assert(s.subrange(0, s.len() as int) =~= s);
    }
}

} // verus!

verus! {

/// What `{:?}` writes for a string slice: the text in double quotes, with
/// quotes, backslashes and unprintable characters escaped.
pub uninterp spec fn debug_str(s: Seq<char>) -> Seq<char>;

/// A character that `{:?}` writes as itself inside a quoted string: printable
/// ASCII other than the double quote and the backslash.
pub open spec fn debug_plain(c: char) -> bool {
    ' ' <= c <= '~' && c != '"' && c != '\\'
}

/// `format!("{s:?}")`, through `<str as Debug>::fmt`.
///
/// The result is named `debug_str`; the contract also states what std's
/// documentation gives for text of printable ASCII without quotes or
/// backslashes: each character stands for itself between two double quotes.
#[verifier::external_body]
pub(crate) fn debug_quoted(s: &str) -> (out: String)
    ensures
        out@ == debug_str(s@),
        (forall|i: int| 0 <= i < s@.len() ==> debug_plain(#[trigger] s@[i])) ==> out@ == seq!['"'] + s@
            + seq!['"'],
{
    format!("{s:?}")
}

/// The characters of an optional string slice.
pub open spec fn opt_str_view(o: Option<&str>) -> Option<Seq<char>> {
    match o {
        Some(s) => Some(s@),
        None => None,
    }
}

/// Whether `s` begins with `prefix`.
pub open spec fn has_prefix(s: Seq<char>, prefix: Seq<char>) -> bool {
    prefix.len() <= s.len() && s.take(prefix.len() as int) == prefix
}

pub fn starts_with(s: &Vec<char>, prefix: &str) -> (b: bool)
    ensures
        b == has_prefix(s@, prefix@),
{
    let p = chars_of(prefix);
    if p.len() > s.len() {
        return false;
    }
    let mut i: usize = 0;
    while i < p.len()
        invariant
            i <= p.len() <= s.len(),
            p@ == prefix@,
            forall|k: int| 0 <= k < i ==> s@[k] == p@[k],
        decreases p.len() - i,
    {
        if s[i] != p[i] {
            assert(s@.take(p.len() as int)[i as int] != p@[i as int]);
            return false;
        }
        i = i + 1;
    }
    assert(s@.take(p.len() as int) =~= p@);
    true
}

/// ASCII lowercase of one character; anything else is kept.
pub open spec fn lower_char(c: char) -> char {
    if 'A' <= c <= 'Z' {
        ((c as u32) + 32) as char
    } else {
        c
    }
}

/// `str::to_ascii_lowercase`.
pub open spec fn ascii_lower(s: Seq<char>) -> Seq<char> {
    s.map_values(|c: char| lower_char(c))
}

pub fn ascii_lower_of(s: &Vec<char>) -> (out: Vec<char>)
    ensures
        out@ == ascii_lower(s@),
{
    let mut out: Vec<char> = Vec::new();
    let mut i: usize = 0;
    while i < s.len()
        invariant
            i <= s.len(),
            out@ == ascii_lower(s@.take(i as int)),
        decreases s.len() - i,
    {
        let c = s[i];
        let l = if 'A' <= c && c <= 'Z' {
            ((c as u8) + 32) as char
        } else {
            c
        };
        assert(l == lower_char(c));
        out.push(l);
        i = i + 1;
        assert(out@ =~= ascii_lower(s@.take(i as int)));
    }
    assert(s@.take(i as int) =~= s@);
    out
}

} // verus!

verus! {

/// Where `c` first occurs in `s`, or -1.
pub open spec fn find_char(s: Seq<char>, c: char) -> int
    decreases s.len(),
{
    if s.len() == 0 {
        -1
    } else if s[0] == c {
        0
    } else {
        let r = find_char(s.drop_first(), c);
        if r < 0 {
            -1
        } else {
            r + 1
        }
    }
}

pub proof fn lemma_find_char(s: Seq<char>, c: char)
    ensures
        -1 <= find_char(s, c) < s.len(),
        find_char(s, c) >= 0 ==> s[find_char(s, c)] == c,
        forall|j: int| 0 <= j < s.len() && (find_char(s, c) < 0 || j < find_char(s, c)) ==> s[j] != c,
    decreases s.len(),
{
    if s.len() > 0 && s[0] != c {
        lemma_find_char(s.drop_first(), c);
        assert forall|j: int| 0 <= j < s.len() && (find_char(s, c) < 0 || j < find_char(s, c)) implies s[j] != c by {
            if j > 0 {
                assert(s[j] == s.drop_first()[j - 1]);
            }
        }
    }
}

/// The first occurrence is determined by where `c` is and is not.
pub proof fn lemma_find_char_at(s: Seq<char>, c: char, k: int)
    requires
        0 <= k < s.len(),
        s[k] == c,
        forall|j: int| 0 <= j < k ==> s[j] != c,
    ensures
        find_char(s, c) == k,
{
    lemma_find_char(s, c);
    let r = find_char(s, c);
    if r < 0 || r > k {
        assert(s[k] != c);
    }
    if 0 <= r < k {
        assert(s[r] != c);
    }
}

pub proof fn lemma_find_char_none(s: Seq<char>, c: char)
    requires
        forall|j: int| 0 <= j < s.len() ==> s[j] != c,
    ensures
        find_char(s, c) == -1,
{
    lemma_find_char(s, c);
    if find_char(s, c) >= 0 {
        assert(s[find_char(s, c)] != c);
    }
}

/// Where `c` first occurs in a vector of characters.
pub fn find_char_in(s: &Vec<char>, c: char) -> (out: Option<usize>)
    ensures
        match out {
            Some(k) => find_char(s@, c) == k as int,
            None => find_char(s@, c) == -1,
        },
{
    let mut i: usize = 0;
    while i < s.len()
        invariant
            i <= s.len(),
            forall|j: int| 0 <= j < i ==> s@[j] != c,
        decreases s.len() - i,
    {
        if s[i] == c {
            proof {
                lemma_find_char_at(s@, c, i as int);
            }
            return Some(i);
        }
        i = i + 1;
    }
    proof {
        lemma_find_char_none(s@, c);
    }
    None
}

/// `str::split_once` at a character: what comes before its first occurrence
/// and what comes after.
pub open spec fn split_once_at(s: Seq<char>, c: char) -> Option<(Seq<char>, Seq<char>)> {
    let k = find_char(s, c);
    if k < 0 {
        None
    } else {
        Some((s.take(k), s.skip(k + 1)))
    }
}

pub fn split_once_char(s: &Vec<char>, c: char) -> (out: Option<(Vec<char>, Vec<char>)>)
    ensures
        match out {
            Some((a, b)) => split_once_at(s@, c) == Some((a@, b@)),
            None => split_once_at(s@, c) is None,
        },
{
    match find_char_in(s, c) {
        None => None,
        Some(k) => {
            proof {
                lemma_find_char(s@, c);
            }
            let mut a: Vec<char> = Vec::new();
            let mut b: Vec<char> = Vec::new();
            let mut i: usize = 0;
            while i < k
                invariant
                    i <= k < s.len(),
                    a@ == s@.take(i as int),
                decreases k - i,
            {
                a.push(s[i]);
                i = i + 1;
                assert(a@ =~= s@.take(i as int));
            }
            let mut j: usize = k + 1;
            while j < s.len()
                invariant
                    k + 1 <= j <= s.len(),
                    b@ == s@.subrange(k + 1, j as int),
                decreases s.len() - j,
            {
                b.push(s[j]);
                j = j + 1;
                assert(b@ =~= s@.subrange(k + 1, j as int));
            }
            assert(b@ =~= s@.skip(k + 1));
            Some((a, b))
        },
    }
}

/// Three fields separated by the first two occurrences of `c`; the last keeps
/// any further occurrences.
pub open spec fn three_fields(s: Seq<char>, c: char) -> Option<(Seq<char>, Seq<char>, Seq<char>)> {
    match split_once_at(s, c) {
        None => None,
        Some((a, rest)) => match split_once_at(rest, c) {
            None => None,
            Some((b, tail)) => Some((a, b, tail)),
        },
    }
}

pub fn three_fields_of(s: &Vec<char>, c: char) -> (out: Option<(Vec<char>, Vec<char>, Vec<char>)>)
    ensures
        match out {
            Some((a, b, t)) => three_fields(s@, c) == Some((a@, b@, t@)),
            None => three_fields(s@, c) is None,
        },
{
    match split_once_char(s, c) {
        None => None,
        Some((a, rest)) => match split_once_char(&rest, c) {
            None => None,
            Some((b, t)) => Some((a, b, t)),
        },
    }
}

/// How `three_fields` splits text it was built from, when the first two fields
/// do not hold the separator.
pub proof fn lemma_three_fields_of_join(a: Seq<char>, b: Seq<char>, t: Seq<char>, c: char)
    requires
        forall|j: int| 0 <= j < a.len() ==> a[j] != c,
        forall|j: int| 0 <= j < b.len() ==> b[j] != c,
    ensures
        three_fields(a + seq![c] + b + seq![c] + t, c) == Some((a, b, t)),
{
    let s = a + seq![c] + b + seq![c] + t;
    assert(s[a.len() as int] == c);
    assert forall|j: int| 0 <= j < a.len() implies s[j] != c by {
        assert(s[j] == a[j]);
    }
    lemma_find_char_at(s, c, a.len() as int);
    assert(s.take(a.len() as int) =~= a);
    let rest = s.skip(a.len() as int + 1);
    assert(rest =~= b + seq![c] + t);
    assert(rest[b.len() as int] == c);
    assert forall|j: int| 0 <= j < b.len() implies rest[j] != c by {
        assert(rest[j] == b[j]);
    }
    lemma_find_char_at(rest, c, b.len() as int);
    assert(rest.take(b.len() as int) =~= b);
    assert(rest.skip(b.len() as int + 1) =~= t);
}

} // verus!

verus! {

/// The pieces of `s` between occurrences of `sep`, as `str::split` gives them.
pub open spec fn split_on(s: Seq<char>, sep: char) -> Seq<Seq<char>>
    decreases s.len(),
{
    if s.len() == 0 {
        seq![Seq::empty()]
    } else {
        let prev = split_on(s.drop_last(), sep);
        if s.last() == sep {
            prev.push(Seq::empty())
        } else {
            prev.update(prev.len() - 1, prev.last().push(s.last()))
        }
    }
}

pub proof fn lemma_split_on_nonempty(s: Seq<char>, sep: char)
    ensures
        split_on(s, sep).len() >= 1,
    decreases s.len(),
{
    if s.len() > 0 {
        lemma_split_on_nonempty(s.drop_last(), sep);
    }
}

/// `str::split` at a character, every piece kept.
pub fn split_all(s: &Vec<char>, sep: char) -> (out: Vec<Vec<char>>)
    ensures
        views(out@) == split_on(s@, sep),
{
    let mut out: Vec<Vec<char>> = Vec::new();
    let mut cur: Vec<char> = Vec::new();
    let mut i: usize = 0;
    assert(s@.take(0) =~= Seq::<char>::empty());
    while i < s.len()
        invariant
            i <= s.len(),
            views(out@).push(cur@) == split_on(s@.take(i as int), sep),
        decreases s.len() - i,
    {
        let ghost before = views(out@).push(cur@);
        proof {
            assert(s@.take(i + 1).drop_last() =~= s@.take(i as int));
            lemma_split_on_nonempty(s@.take(i as int), sep);
        }
        let c = s[i];
        if c == sep {
            let done = cur;
            out.push(done);
            cur = Vec::new();
            assert(views(out@).push(cur@) =~= before.push(Seq::empty()));
        } else {
            cur.push(c);
            assert(views(out@).push(cur@) =~= before.update(before.len() - 1, before.last().push(c)));
        }
        i = i + 1;
    }
    assert(s@.take(i as int) =~= s@);
    out.push(cur);
    out
}

} // verus!

verus! {

/// The runs of non-whitespace characters, as `split_whitespace` yields them.
pub open spec fn words(s: Seq<char>) -> Seq<Seq<char>>
    decreases s.len(),
{
    if s.len() == 0 {
        Seq::empty()
    } else {
        let prev = words(s.drop_last());
        let c = s.last();
        if is_whitespace(c) {
            prev
        } else if s.len() >= 2 && !is_whitespace(s[s.len() - 2]) {
            prev.update(prev.len() - 1, prev.last().push(c))
        } else {
            prev.push(seq![c])
        }
    }
}

pub proof fn lemma_words_nonempty(s: Seq<char>)
    requires
        s.len() > 0,
        !is_whitespace(s.last()),
    ensures
        words(s).len() >= 1,
    decreases s.len(),
{
    if s.len() >= 2 && !is_whitespace(s[s.len() - 2]) {
        lemma_words_nonempty(s.drop_last());
    }
}

pub fn words_of(s: &Vec<char>) -> (out: Vec<Vec<char>>)
    ensures
        views(out@) == words(s@),
{
    let mut out: Vec<Vec<char>> = Vec::new();
    let mut i: usize = 0;
    assert(s@.take(0) =~= Seq::<char>::empty());
    assert(views(out@) =~= Seq::<Seq<char>>::empty());
    while i < s.len()
        invariant
            i <= s.len(),
            views(out@) == words(s@.take(i as int)),
        decreases s.len() - i,
    {
        let c = s[i];
        let ghost before = out@;
        proof {
            assert(s@.take(i + 1).drop_last() =~= s@.take(i as int));
            assert(s@.take(i + 1).last() == c);
        }
        if is_whitespace_char(c) {
        } else if i >= 1 && !is_whitespace_char(s[i - 1]) {
            proof {
                assert(s@.take(i + 1)[i - 1] == s@[i - 1]);
                assert(s@.take(i as int).last() == s@[i - 1]);
                lemma_words_nonempty(s@.take(i as int));
            }
            let mut last = out.pop().unwrap();
            last.push(c);
            out.push(last);
            proof {
                assert(views(out@) =~= views(before).update(views(before).len() - 1, views(before).last().push(c)));
            }
        } else {
            proof {
                if i >= 1 {
                    assert(s@.take(i + 1)[i - 1] == s@[i - 1]);
                }
            }
            let mut w: Vec<char> = Vec::new();
            w.push(c);
            out.push(w);
            proof {
                assert(w@ =~= seq![c]);
                assert(views(out@) =~= views(before).push(seq![c]));
            }
        }
        i = i + 1;
    }
    assert(s@.take(i as int) =~= s@);
    out
}

} // verus!
