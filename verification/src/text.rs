//! Text: trimming, prefixes, decimal numbers, and names that are safe in a path.

use vstd::prelude::*;

verus! {

/// `String::push` appends the character.
pub assume_specification[ String::push ](text: &mut String, c: char)
    ensures
        final(text)@ == old(text)@.push(c),
;

/// `str::eq` says whether the two hold the same characters.
pub assume_specification[ <str as PartialEq>::eq ](a: &str, b: &str) -> (same: bool)
    ensures
        same == (a@ == b@),
;

/// An ASCII capital turned into its small letter; any other character as it is.
pub open spec fn ascii_lower(c: char) -> char {
    if 'A' <= c <= 'Z' {
        (c as u32 + 32) as char
    } else {
        c
    }
}

/// `str::eq_ignore_ascii_case` compares with ASCII capitals taken as small letters.
pub assume_specification[ str::eq_ignore_ascii_case ](a: &str, b: &str) -> (same: bool)
    ensures
        same == (a@.map_values(|c: char| ascii_lower(c)) == b@.map_values(
            |c: char| ascii_lower(c),
        )),
;

/// The characters with Unicode's White_Space property.
pub open spec fn white_space(c: char) -> bool {
    let v = c as u32;
    ||| 0x9 <= v <= 0xd
    ||| v == 0x20
    ||| v == 0x85
    ||| v == 0xa0
    ||| v == 0x1680
    ||| 0x2000 <= v <= 0x200a
    ||| v == 0x2028
    ||| v == 0x2029
    ||| v == 0x202f
    ||| v == 0x205f
    ||| v == 0x3000
}

/// ASCII letters and digits.
pub open spec fn ascii_alphanumeric(c: char) -> bool {
    'a' <= c <= 'z' || 'A' <= c <= 'Z' || '0' <= c <= '9'
}

/// The characters of a track id that may stand in a file name.
pub open spec fn track_safe(c: char) -> bool {
    ascii_alphanumeric(c) || c == '_' || c == '-'
}

/// Control characters.
pub open spec fn control(c: char) -> bool {
    let v = c as u32;
    v < 0x20 || 0x7f <= v <= 0x9f
}

/// The ideographs of Chinese, Japanese and Korean.
pub open spec fn ideograph(c: char) -> bool {
    0x4e00 <= c as u32 <= 0x9fff
}

/// What `char::is_alphanumeric` says of a character.
pub uninterp spec fn unicode_alphanumeric(c: char) -> bool;

/// `char::is_alphanumeric` says whether Unicode counts a character among the letters or the
/// numbers, of whatever script. It is not said here which those are.
pub assume_specification[ char::is_alphanumeric ](c: char) -> (yes: bool)
    ensures
        yes == unicode_alphanumeric(c),
;

/// The characters of a nickname that may stand in a file name: letters and digits of any
/// script, `_` and `-`; no separator, full stop, white space or control character.
pub open spec fn file_safe(c: char) -> bool {
    if (c as u32) < 0x80 {
        track_safe(c)
    } else {
        ideograph(c) || (!control(c) && !white_space(c) && unicode_alphanumeric(c))
    }
}

/// `s` without the leading characters that `p` holds of.
pub open spec fn trim_start(s: Seq<char>, p: spec_fn(char) -> bool) -> Seq<char>
    decreases s.len(),
{
    if s.len() > 0 && p(s[0]) {
        trim_start(s.skip(1), p)
    } else {
        s
    }
}

/// `s` without the trailing characters that `p` holds of.
pub open spec fn trim_end(s: Seq<char>, p: spec_fn(char) -> bool) -> Seq<char>
    decreases s.len(),
{
    if s.len() > 0 && p(s.last()) {
        trim_end(s.drop_last(), p)
    } else {
        s
    }
}

/// `s` without the characters at both ends that `p` holds of.
pub open spec fn trim_both(s: Seq<char>, p: spec_fn(char) -> bool) -> Seq<char> {
    trim_end(trim_start(s, p), p)
}

proof fn lemma_trim_start(s: Seq<char>, p: spec_fn(char) -> bool, k: int)
    requires
        0 <= k <= s.len(),
        forall|i: int| 0 <= i < k ==> p(#[trigger] s[i]),
        k < s.len() ==> !p(s[k]),
    ensures
        trim_start(s, p) == s.skip(k),
    decreases s.len(),
{
    if k > 0 {
        assert(p(s[0]));
        let rest = s.skip(1);
        assert forall|i: int| 0 <= i < k - 1 implies p(#[trigger] rest[i]) by {
            assert(p(s[i + 1]));
        }
        lemma_trim_start(rest, p, k - 1);
        assert(rest.skip(k - 1) =~= s.skip(k));
    } else {
        assert(s.skip(0) =~= s);
    }
}

proof fn lemma_trim_end(s: Seq<char>, p: spec_fn(char) -> bool, k: int)
    requires
        0 <= k <= s.len(),
        forall|i: int| k <= i < s.len() ==> p(#[trigger] s[i]),
        k > 0 ==> !p(s[k - 1]),
    ensures
        trim_end(s, p) == s.take(k),
    decreases s.len(),
{
    if k < s.len() {
        assert(p(s[s.len() - 1]));
        let rest = s.drop_last();
        assert forall|i: int| k <= i < rest.len() implies p(#[trigger] rest[i]) by {
            assert(p(s[i]));
        }
        lemma_trim_end(rest, p, k);
        assert(rest.take(k) =~= s.take(k));
    } else {
        assert(s.take(k) =~= s);
    }
}

/// Whether a character is white space.
pub fn is_white_space(c: char) -> (yes: bool)
    ensures
        yes == white_space(c),
{
    let v: u32 = c as u32;
    (0x9 <= v && v <= 0xd) || v == 0x20 || v == 0x85 || v == 0xa0 || v == 0x1680 || (0x2000 <= v
        && v <= 0x200a) || v == 0x2028 || v == 0x2029 || v == 0x202f || v == 0x205f || v == 0x3000
}

/// Whether a character of a nickname may stand in a file name.
fn is_file_safe(c: char) -> (yes: bool)
    ensures
        yes == file_safe(c),
{
    let v: u32 = c as u32;
    if v < 0x80 {
        is_track_safe(c)
    } else {
        (0x4e00 <= v && v <= 0x9fff) || (v > 0x9f && !is_white_space(c) && c.is_alphanumeric())
    }
}

/// Whether a character of a track id may stand in a file name.
fn is_track_safe(c: char) -> (yes: bool)
    ensures
        yes == track_safe(c),
{
    ('a' <= c && c <= 'z') || ('A' <= c && c <= 'Z') || ('0' <= c && c <= '9') || c == '_' || c
        == '-'
}

/// The characters of a text, one by one.
pub fn to_chars(text: &str) -> (chars: Vec<char>)
    ensures
        chars@ == text@,
{
    let mut chars: Vec<char> = Vec::new();
    for c in it: text.chars()
        invariant
            it.seq() == text@,
            chars@ == text@.take(it.index()),
    {
        chars.push(c);
        assert(text@.take(it.index() + 1) =~= text@.take(it.index()).push(c));
    }
    assert(text@.take(text@.len() as int) =~= text@);
    chars
}

/// A text from some of its characters.
fn from_chars(chars: &Vec<char>, from: usize, to: usize) -> (text: String)
    requires
        from <= to <= chars@.len(),
    ensures
        text@ == chars@.subrange(from as int, to as int),
{
    let mut text = String::new();
    let mut i: usize = from;
    assert(text@ =~= chars@.subrange(from as int, from as int));
    while i < to
        invariant
            from <= i <= to <= chars@.len(),
            text@ == chars@.subrange(from as int, i as int),
        decreases to - i,
    {
        text.push(chars[i]);
        assert(chars@.subrange(from as int, i + 1) =~= chars@.subrange(from as int, i as int).push(
            chars@[i as int],
        ));
        i += 1;
    }
    text
}

/// A text without white space at its ends.
pub fn trim(text: &str) -> (trimmed: String)
    ensures
        trimmed@ == trim_both(text@, |c: char| white_space(c)),
{
    let chars = to_chars(text);
    let ghost p = |c: char| white_space(c);
    let len: usize = chars.len();
    let mut from: usize = 0;
    while from < len && is_white_space(chars[from])
        invariant
            from <= len == chars@.len(),
            forall|i: int| 0 <= i < from ==> white_space(#[trigger] chars@[i]),
        decreases len - from,
    {
        from += 1;
    }
    let mut to: usize = len;
    while to > from && is_white_space(chars[to - 1])
        invariant
            from <= to <= len == chars@.len(),
            forall|i: int| to <= i < len ==> white_space(#[trigger] chars@[i]),
        decreases to,
    {
        to -= 1;
    }
    proof {
        let s = chars@;
        lemma_trim_start(s, p, from as int);
        let rest = s.skip(from as int);
        assert forall|i: int| to - from <= i < rest.len() implies p(#[trigger] rest[i]) by {
            assert(white_space(s[i + from]));
        }
        lemma_trim_end(rest, p, to - from);
        assert(rest.take(to - from) =~= s.subrange(from as int, to as int));
    }
    from_chars(&chars, from, to)
}

/// The characters that may stand between the parts of a JSON text.
pub open spec fn json_space(c: char) -> bool {
    c == ' ' || c == '\t' || c == '\n' || c == '\r'
}

/// A JSON text from its first part on.
pub open spec fn after_space(text: Seq<char>) -> Seq<char> {
    trim_start(text, |c: char| json_space(c))
}

/// A JSON text from its first part on.
pub fn skip_space<'a>(text: &'a str) -> (rest: &'a str)
    ensures
        rest@ == after_space(text@),
{
    let len: usize = text.unicode_len();
    let mut from: usize = 0;
    while from < len
        invariant
            len == text@.len(),
            from <= len,
            forall|i: int| 0 <= i < from ==> json_space(#[trigger] text@[i]),
        ensures
            from <= len,
            forall|i: int| 0 <= i < from ==> json_space(#[trigger] text@[i]),
            from < len ==> !json_space(text@[from as int]),
        decreases len - from,
    {
        let c = text.get_char(from);
        if c != ' ' && c != '\t' && c != '\n' && c != '\r' {
            break;
        }
        from += 1;
    }
    proof {
        lemma_trim_start(text@, |c: char| json_space(c), from as int);
        assert(text@.subrange(from as int, len as int) =~= text@.skip(from as int));
    }
    text.substring_char(from, len)
}

/// A text without slashes at its end.
pub open spec fn without_slashes(text: Seq<char>) -> Seq<char> {
    trim_end(text, |c: char| c == '/')
}

/// A text without slashes at its end.
pub fn trim_slashes(text: &str) -> (trimmed: String)
    ensures
        trimmed@ == without_slashes(text@),
{
    let chars = to_chars(text);
    let mut to: usize = chars.len();
    while to > 0 && chars[to - 1] == '/'
        invariant
            to <= chars@.len(),
            forall|i: int| to <= i < chars@.len() ==> #[trigger] chars@[i] == '/',
        decreases to,
    {
        to -= 1;
    }
    proof {
        lemma_trim_end(text@, |c: char| c == '/', to as int);
        assert(text@.take(to as int) =~= chars@.subrange(0, to as int));
    }
    from_chars(&chars, 0, to)
}

/// Whether two texts hold the same characters.
pub fn same_text(a: &str, b: &str) -> (same: bool)
    ensures
        same == (a@ == b@),
{
    *a == *b
}

/// What follows a prefix; `None` where the text does not start with it.
pub open spec fn after_prefix(text: Seq<char>, prefix: Seq<char>) -> Option<Seq<char>> {
    if prefix.len() <= text.len() && text.take(prefix.len() as int) == prefix {
        Some(text.skip(prefix.len() as int))
    } else {
        None
    }
}

/// What follows a prefix.
pub fn strip_prefix<'a>(text: &'a str, prefix: &str) -> (rest: Option<&'a str>)
    ensures
        match rest {
            Some(r) => after_prefix(text@, prefix@) == Some(r@),
            None => after_prefix(text@, prefix@) is None,
        },
{
    let n: usize = prefix.unicode_len();
    let len: usize = text.unicode_len();
    if len < n {
        return None;
    }
    if same_text(text.substring_char(0, n), prefix) {
        assert(text@.subrange(n as int, len as int) =~= text@.skip(n as int));
        assert(text@.subrange(0, n as int) =~= text@.take(n as int));
        Some(text.substring_char(n, len))
    } else {
        assert(text@.subrange(0, n as int) =~= text@.take(n as int));
        None
    }
}

/// What stands before the first `mark`; `None` where there is none.
pub open spec fn before_first(text: Seq<char>, mark: char) -> Option<Seq<char>> {
    if text.contains(mark) {
        Some(text.take(text.index_of_first(mark)->0))
    } else {
        None
    }
}

/// What stands before the first `mark` is what stands before the place where it comes first.
pub proof fn lemma_before_first(text: Seq<char>, mark: char, at: int)
    requires
        0 <= at < text.len(),
        text[at] == mark,
        forall|i: int| 0 <= i < at ==> text[i] != mark,
    ensures
        before_first(text, mark) == Some(text.take(at)),
{
    text.index_of_first_ensures(mark);
    assert(text.contains(mark));
}

/// What stands before the first `mark`.
pub fn split_before(text: &str, mark: char) -> (head: Option<String>)
    ensures
        match head {
            Some(h) => before_first(text@, mark) == Some(h@),
            None => before_first(text@, mark) is None,
        },
{
    let chars = to_chars(text);
    let len: usize = chars.len();
    let mut i: usize = 0;
    while i < len && chars[i] != mark
        invariant
            i <= len == chars@.len(),
            forall|k: int| 0 <= k < i ==> chars@[k] != mark,
        decreases len - i,
    {
        i += 1;
    }
    proof {
        text@.index_of_first_ensures(mark);
    }
    if i < len {
        proof {
            assert(text@.contains(mark));
            assert(text@.index_of_first(mark) == Some(i as int));
            assert(chars@.subrange(0, i as int) =~= text@.take(i as int));
        }
        Some(from_chars(&chars, 0, i))
    } else {
        None
    }
}

/// The digit of a number below ten.
pub open spec fn digit(n: int) -> char {
    (48 + n) as char
}

/// A number in decimal, without leading zeros.
pub open spec fn decimal_text(n: nat) -> Seq<char>
    decreases n,
{
    if n < 10 {
        seq![digit(n as int)]
    } else {
        decimal_text(n / 10).push(digit((n % 10) as int))
    }
}

/// A number in decimal, with zeros in front up to `width` digits.
pub open spec fn padded_decimal(n: nat, width: nat) -> Seq<char> {
    Seq::new(
        if decimal_text(n).len() < width {
            (width - decimal_text(n).len()) as nat
        } else {
            0
        },
        |i: int| '0',
    ) + decimal_text(n)
}

fn push_digit(text: &mut String, n: u64)
    requires
        n < 10,
    ensures
        final(text)@ == old(text)@.push(digit(n as int)),
{
    let c = if n == 0 {
        '0'
    } else if n == 1 {
        '1'
    } else if n == 2 {
        '2'
    } else if n == 3 {
        '3'
    } else if n == 4 {
        '4'
    } else if n == 5 {
        '5'
    } else if n == 6 {
        '6'
    } else if n == 7 {
        '7'
    } else if n == 8 {
        '8'
    } else {
        '9'
    };
    text.push(c);
}

/// Appends a number in decimal.
pub fn push_decimal(text: &mut String, n: u64)
    ensures
        final(text)@ == old(text)@ + decimal_text(n as nat),
    decreases n,
{
    if n >= 10 {
        push_decimal(text, n / 10);
    }
    push_digit(text, n % 10);
    assert(text@ =~= old(text)@ + decimal_text(n as nat));
}

/// A number in decimal.
pub fn decimal(n: u64) -> (text: String)
    ensures
        text@ == decimal_text(n as nat),
{
    let mut text = String::new();
    push_decimal(&mut text, n);
    assert(text@ =~= decimal_text(n as nat));
    text
}

/// A number in decimal, with zeros in front up to four digits.
pub fn decimal4(n: u32) -> (text: String)
    ensures
        text@ == padded_decimal(n as nat, 4),
{
    let mut text = String::new();
    proof {
        reveal_with_fuel(decimal_text, 4);
        lemma_decimal_len(n as nat);
    }
    if n < 1000 {
        text.push('0');
    }
    if n < 100 {
        text.push('0');
    }
    if n < 10 {
        text.push('0');
    }
    push_decimal(&mut text, n as u64);
    assert(text@ =~= padded_decimal(n as nat, 4));
    text
}

proof fn lemma_decimal_len(n: nat)
    ensures
        n >= 1000 ==> decimal_text(n).len() >= 4,
    decreases n,
{
    reveal_with_fuel(decimal_text, 4);
    if n >= 10_000 {
        lemma_decimal_len(n / 10);
    }
}

/// A nickname with every other character turned into an underscore, without
/// underscores at its ends, cut to 48 characters; `participant` where nothing is left.
pub open spec fn safe_filename_of(name: Seq<char>) -> Seq<char> {
    let kept = trim_both(
        name.map_values(|c: char| if file_safe(c) { c } else { '_' }),
        |c: char| c == '_',
    );
    if kept.len() == 0 {
        "participant"@
    } else if kept.len() <= 48 {
        kept
    } else {
        kept.take(48)
    }
}

/// The part of a track file's name that stands for the nickname.
pub fn safe_filename(name: &str) -> (safe: String)
    ensures
        safe@ == safe_filename_of(name@),
{
    let chars = to_chars(name);
    let len: usize = chars.len();
    let mut value: Vec<char> = Vec::new();
    let mut i: usize = 0;
    let ghost mapped = name@.map_values(|c: char| if file_safe(c) { c } else { '_' });
    while i < len
        invariant
            i <= len == chars@.len(),
            chars@ == name@,
            mapped == name@.map_values(|c: char| if file_safe(c) { c } else { '_' }),
            value@ == mapped.take(i as int),
        decreases len - i,
    {
        let c = chars[i];
        value.push(if is_file_safe(c) { c } else { '_' });
        assert(mapped.take(i + 1) =~= mapped.take(i as int).push(mapped[i as int]));
        i += 1;
    }
    assert(value@ =~= mapped);
    let ghost p = |c: char| c == '_';
    let mut from: usize = 0;
    while from < len && value[from] == '_'
        invariant
            from <= len == value@.len(),
            forall|i: int| 0 <= i < from ==> #[trigger] value@[i] == '_',
        decreases len - from,
    {
        from += 1;
    }
    let mut to: usize = len;
    while to > from && value[to - 1] == '_'
        invariant
            from <= to <= len == value@.len(),
            forall|i: int| to <= i < len ==> #[trigger] value@[i] == '_',
        decreases to,
    {
        to -= 1;
    }
    proof {
        lemma_trim_start(mapped, p, from as int);
        let rest = mapped.skip(from as int);
        assert forall|i: int| to - from <= i < rest.len() implies p(#[trigger] rest[i]) by {
            assert(mapped[i + from] == '_');
        }
        lemma_trim_end(rest, p, to - from);
        assert(rest.take(to - from) =~= mapped.subrange(from as int, to as int));
    }
    if from == to {
        return "participant".to_owned();
    }
    if to - from > 48 {
        assert(mapped.subrange(from as int, to as int).take(48) =~= mapped.subrange(
            from as int,
            from + 48,
        ));
        to = from + 48;
    }
    from_chars(&value, from, to)
}

/// A track id without the characters that may not stand in a file name.
pub open spec fn safe_track_id_of(value: Seq<char>) -> Seq<char> {
    value.filter(|c: char| track_safe(c))
}

/// The part of a segment file's name that stands for the track.
pub fn safe_track_id(value: &str) -> (safe: String)
    ensures
        safe@ == safe_track_id_of(value@),
{
    let chars = to_chars(value);
    let len: usize = chars.len();
    let mut safe = String::new();
    let mut i: usize = 0;
    let ghost keep = |c: char| track_safe(c);
    proof {
        assert(chars@.take(0).filter(keep) =~= Seq::empty());
    }
    while i < len
        invariant
            i <= len == chars@.len(),
            keep == (|c: char| track_safe(c)),
            safe@ == chars@.take(i as int).filter(keep),
        decreases len - i,
    {
        let c = chars[i];
        proof {
            let longer = chars@.take(i + 1);
            assert(longer.drop_last() =~= chars@.take(i as int));
            assert(longer.last() == c);
            reveal(Seq::filter);
        }
        if is_track_safe(c) {
            safe.push(c);
        }
        i += 1;
    }
    assert(chars@.take(len as int) =~= chars@);
    safe
}

/// A path followed by a further component, as Unix joins them.
pub open spec fn joined(base: Seq<char>, component: Seq<char>) -> Seq<char> {
    if component.len() > 0 && component[0] == '/' {
        component
    } else if base.len() == 0 || base.last() == '/' {
        base + component
    } else {
        base.push('/') + component
    }
}

/// A path followed by a further component.
pub fn join_path(base: &str, component: &str) -> (path: String)
    ensures
        path@ == joined(base@, component@),
{
    let component_len: usize = component.unicode_len();
    if component_len > 0 && component.get_char(0) == '/' {
        return component.to_owned();
    }
    let mut path = base.to_owned();
    let base_len: usize = base.unicode_len();
    if base_len > 0 && base.get_char(base_len - 1) != '/' {
        path.push('/');
    }
    path.append(component);
    path
}

proof fn lemma_trim_both_parts(s: Seq<char>, p: spec_fn(char) -> bool)
    ensures
        exists|i: int, j: int|
            0 <= i <= j <= s.len() && trim_both(s, p) == #[trigger] s.subrange(i, j),
{
    lemma_trim_start_is_skip(s, p);
    let i = choose|i: int| 0 <= i <= s.len() && trim_start(s, p) == s.skip(i);
    let rest = s.skip(i);
    lemma_trim_end_is_take(rest, p);
    let k = choose|k: int| 0 <= k <= rest.len() && trim_end(rest, p) == rest.take(k);
    assert(rest.take(k) =~= s.subrange(i, i + k));
}

proof fn lemma_trim_start_is_skip(s: Seq<char>, p: spec_fn(char) -> bool)
    ensures
        exists|i: int| 0 <= i <= s.len() && trim_start(s, p) == #[trigger] s.skip(i),
    decreases s.len(),
{
    if s.len() > 0 && p(s[0]) {
        let rest = s.skip(1);
        lemma_trim_start_is_skip(rest, p);
        let i = choose|i: int| 0 <= i <= rest.len() && trim_start(rest, p) == rest.skip(i);
        assert(rest.skip(i) =~= s.skip(i + 1));
    } else {
        assert(s.skip(0) =~= s);
    }
}

proof fn lemma_trim_end_is_take(s: Seq<char>, p: spec_fn(char) -> bool)
    ensures
        exists|k: int| 0 <= k <= s.len() && trim_end(s, p) == #[trigger] s.take(k),
    decreases s.len(),
{
    if s.len() > 0 && p(s.last()) {
        let rest = s.drop_last();
        lemma_trim_end_is_take(rest, p);
        let k = choose|k: int| 0 <= k <= rest.len() && trim_end(rest, p) == rest.take(k);
        assert(rest.take(k) =~= s.take(k));
    } else {
        assert(s.take(s.len() as int) =~= s);
    }
}

proof fn lemma_trim_end_keeps_the_first(s: Seq<char>, p: spec_fn(char) -> bool)
    requires
        s.len() > 0,
        !p(s[0]),
    ensures
        trim_end(s, p).len() > 0,
        trim_end(s, p)[0] == s[0],
    decreases s.len(),
{
    if p(s.last()) {
        assert(s.len() > 1);
        lemma_trim_end_keeps_the_first(s.drop_last(), p);
    }
}

proof fn lemma_trim_start_first(s: Seq<char>, p: spec_fn(char) -> bool)
    ensures
        trim_start(s, p).len() > 0 ==> !p(trim_start(s, p)[0]),
    decreases s.len(),
{
    if s.len() > 0 && p(s[0]) {
        lemma_trim_start_first(s.skip(1), p);
    }
}

/// A nickname never reaches a path as it is: the name of a track file holds one to 48
/// characters, all of them letters, digits, `_` or `-`, and does not start with `_`. None
/// of them separates paths, is a full stop, white space or a control character.
pub proof fn law_safe_filename(name: Seq<char>)
    ensures
        1 <= safe_filename_of(name).len() <= 48,
        safe_filename_of(name)[0] != '_',
        forall|i: int|
            0 <= i < safe_filename_of(name).len() ==> {
                let c = #[trigger] safe_filename_of(name)[i];
                &&& file_safe(c)
                &&& c != '/' && c != '\\' && c != '.'
                &&& !white_space(c) && !control(c)
            },
{
    let mapped = name.map_values(|c: char| if file_safe(c) { c } else { '_' });
    let p = |c: char| c == '_';
    lemma_trim_both_parts(mapped, p);
    lemma_trim_start_first(mapped, p);
    if trim_start(mapped, p).len() > 0 {
        lemma_trim_end_keeps_the_first(trim_start(mapped, p), p);
    }
    reveal_strlit("participant");
    assert("participant"@[0] == 'p');
}

/// A nickname of up to 48 letters and digits, of whatever script, names its file as it is.
pub proof fn law_safe_nickname_is_kept(name: Seq<char>)
    requires
        1 <= name.len() <= 48,
        name[0] != '_',
        name.last() != '_',
        forall|i: int| 0 <= i < name.len() ==> file_safe(#[trigger] name[i]),
    ensures
        safe_filename_of(name) == name,
{
    let mapped = name.map_values(|c: char| if file_safe(c) { c } else { '_' });
    assert(mapped =~= name);
}

/// The name of a segment file holds none but safe characters of the track id, and what is
/// safe stays as it is.
pub proof fn law_safe_track_id(value: Seq<char>)
    ensures
        forall|i: int|
            0 <= i < safe_track_id_of(value).len() ==> track_safe(
                #[trigger] safe_track_id_of(value)[i],
            ),
        safe_track_id_of(safe_track_id_of(value)) == safe_track_id_of(value),
{
    broadcast use vstd::seq_lib::group_filter_ensures;
    lemma_filter_keeps_all(safe_track_id_of(value), |c: char| track_safe(c));
}

proof fn lemma_filter_keeps_all(s: Seq<char>, p: spec_fn(char) -> bool)
    requires
        forall|i: int| 0 <= i < s.len() ==> p(#[trigger] s[i]),
    ensures
        s.filter(p) == s,
    decreases s.len(),
{
    reveal(Seq::filter);
    if s.len() > 0 {
        let shorter = s.drop_last();
        assert forall|i: int| 0 <= i < shorter.len() implies p(#[trigger] shorter[i]) by {
            assert(shorter[i] == s[i]);
        }
        lemma_filter_keeps_all(shorter, p);
        assert(p(s[s.len() - 1]));
        assert(shorter.push(s.last()) =~= s);
    } else {
        assert(s.filter(p) =~= s);
    }
}

/// Trimming takes nothing but what is to be trimmed, and all of it: what is left stands in the
/// text as it is, everything around it was to go, and neither of its ends is.
pub proof fn law_trimming(s: Seq<char>, p: spec_fn(char) -> bool)
    ensures
        exists|i: int, j: int|
            0 <= i <= j <= s.len() && trim_both(s, p) == #[trigger] s.subrange(i, j) && (forall|
                k: int,
            |
                0 <= k < i || j <= k < s.len() ==> p(#[trigger] s[k])),
        trim_both(s, p).len() > 0 ==> !p(trim_both(s, p)[0]) && !p(trim_both(s, p).last()),
{
    lemma_trimmed_start(s, p);
    let rest = trim_start(s, p);
    lemma_trimmed_end(rest, p);
    let i = s.len() - rest.len();
    let kept = trim_both(s, p);
    let j = i + kept.len();
    assert(kept =~= s.subrange(i, j));
    assert forall|k: int| 0 <= k < i || j <= k < s.len() implies p(#[trigger] s[k]) by {
        if k >= j {
            assert(rest[k - i] == s[k]);
        }
    }
    if kept.len() > 0 {
        assert(kept[0] == rest[0]);
    }
}

proof fn lemma_trimmed_start(s: Seq<char>, p: spec_fn(char) -> bool)
    ensures
        trim_start(s, p).len() <= s.len(),
        trim_start(s, p) == s.skip(s.len() - trim_start(s, p).len()),
        forall|k: int| 0 <= k < s.len() - trim_start(s, p).len() ==> p(#[trigger] s[k]),
        trim_start(s, p).len() > 0 ==> !p(trim_start(s, p)[0]),
    decreases s.len(),
{
    if s.len() > 0 && p(s[0]) {
        let rest = s.skip(1);
        lemma_trimmed_start(rest, p);
        let kept = trim_start(s, p);
        assert(kept =~= s.skip(s.len() - kept.len()));
        assert forall|k: int| 0 <= k < s.len() - kept.len() implies p(#[trigger] s[k]) by {
            if k > 0 {
                assert(rest[k - 1] == s[k]);
            }
        }
    } else {
        assert(s.skip(0) =~= s);
    }
}

proof fn lemma_trimmed_end(s: Seq<char>, p: spec_fn(char) -> bool)
    ensures
        trim_end(s, p).len() <= s.len(),
        trim_end(s, p) == s.take(trim_end(s, p).len() as int),
        forall|k: int| trim_end(s, p).len() <= k < s.len() ==> p(#[trigger] s[k]),
        trim_end(s, p).len() > 0 ==> !p(trim_end(s, p).last()),
    decreases s.len(),
{
    if s.len() > 0 && p(s.last()) {
        let rest = s.drop_last();
        lemma_trimmed_end(rest, p);
        let kept = trim_end(s, p);
        assert(kept =~= s.take(kept.len() as int));
        assert forall|k: int| kept.len() <= k < s.len() implies p(#[trigger] s[k]) by {
            if k < rest.len() {
                assert(rest[k] == s[k]);
            }
        }
    } else {
        assert(s.take(s.len() as int) =~= s);
    }
}

/// An address loses the slashes at its end and nothing else.
pub proof fn law_slashes_at_the_end_go(text: Seq<char>)
    ensures
        ({
            let kept = without_slashes(text);
            &&& kept.len() <= text.len()
            &&& kept == text.take(kept.len() as int)
            &&& forall|k: int| kept.len() <= k < text.len() ==> #[trigger] text[k] == '/'
            &&& kept.len() > 0 ==> kept.last() != '/'
        }),
{
    lemma_trimmed_end(text, |c: char| c == '/');
}

/// The value of a decimal text.
pub open spec fn decimal_value(text: Seq<char>) -> int {
    text.fold_left(0int, |value: int, c: char| 10 * value + (c as int - '0' as int))
}

/// A number is written in decimal digits that stand for it, without a zero in front.
pub proof fn law_decimal_text_stands_for_the_number(n: nat)
    ensures
        decimal_value(decimal_text(n)) == n,
        decimal_text(n).len() > 0,
        decimal_text(n).len() > 1 ==> decimal_text(n)[0] != '0',
        forall|i: int|
            0 <= i < decimal_text(n).len() ==> '0' <= #[trigger] decimal_text(n)[i] <= '9',
        n > 0 ==> decimal_text(n)[0] != '0',
    decreases n,
{
    let text = decimal_text(n);
    let f = |value: int, c: char| 10 * value + (c as int - '0' as int);
    if n < 10 {
        assert(text.drop_last() =~= Seq::empty());
        reveal_with_fuel(Seq::fold_left, 2);
        assert(text.fold_left(0int, f) == f(0, digit(n as int)));
    } else {
        let head = decimal_text(n / 10);
        law_decimal_text_stands_for_the_number(n / 10);
        assert(text.drop_last() =~= head);
        assert(text.last() == digit((n % 10) as int));
        assert(text.fold_left(0int, f) == f(head.fold_left(0int, f), text.last()));
        assert(text[0] == head[0]);
        assert forall|i: int| 0 <= i < text.len() implies '0' <= #[trigger] text[i] <= '9' by {
            if i < head.len() {
                assert(text[i] == head[i]);
            }
        }
    }
}

/// Zeros in front do not change the number, and make it at least as wide as asked for.
pub proof fn law_padded_decimal_stands_for_the_number(n: nat, width: nat)
    ensures
        decimal_value(padded_decimal(n, width)) == n,
        padded_decimal(n, width).len() >= width,
        padded_decimal(n, width).len() > width ==> padded_decimal(n, width) == decimal_text(n),
{
    let text = decimal_text(n);
    let zeros = (if text.len() < width {
        width - text.len()
    } else {
        0
    }) as nat;
    law_decimal_text_stands_for_the_number(n);
    let pad = Seq::new(zeros, |i: int| '0');
    let f = |value: int, c: char| 10 * value + (c as int - '0' as int);
    lemma_zeros_in_front(zeros);
    pad.lemma_fold_left_split(0int, f, 0);
    let whole = pad + text;
    whole.lemma_fold_left_split(0int, f, zeros as int);
    assert(whole.subrange(0, zeros as int) =~= pad);
    assert(whole.subrange(zeros as int, whole.len() as int) =~= text);
    if padded_decimal(n, width).len() > width {
        assert(pad + text =~= text);
    }
}

proof fn lemma_zeros_in_front(zeros: nat)
    ensures
        decimal_value(Seq::new(zeros, |i: int| '0')) == 0,
    decreases zeros,
{
    let pad = Seq::new(zeros, |i: int| '0');
    let f = |value: int, c: char| 10 * value + (c as int - '0' as int);
    if zeros > 0 {
        lemma_zeros_in_front((zeros - 1) as nat);
        assert(pad.drop_last() =~= Seq::new((zeros - 1) as nat, |i: int| '0'));
        assert(pad.fold_left(0int, f) == f(pad.drop_last().fold_left(0int, f), pad.last()));
    }
}

/// What follows a prefix is the rest of the text: the two make it up. There is none where the
/// text does not start with the prefix.
pub proof fn law_prefix_and_rest_are_the_text(text: Seq<char>, prefix: Seq<char>, rest: Seq<char>)
    ensures
        after_prefix(text, prefix) == Some(rest) <==> text == prefix + rest,
{
    if text == prefix + rest {
        assert(text.take(prefix.len() as int) =~= prefix);
        assert(text.skip(prefix.len() as int) =~= rest);
    }
    if after_prefix(text, prefix) == Some(rest) {
        assert(text =~= prefix + rest);
    }
}

/// What stands before a mark holds none, and the mark follows it. Where there is no mark
/// nothing stands before one.
pub proof fn law_head_ends_at_the_first_mark(
    text: Seq<char>,
    mark: char,
    head: Seq<char>,
    tail: Seq<char>,
)
    ensures
        text == head.push(mark) + tail && !head.contains(mark) ==> before_first(text, mark) == Some(
            head,
        ),
        before_first(text, mark) is None <==> !text.contains(mark),
{
    if text == head.push(mark) + tail && !head.contains(mark) {
        let at = head.len() as int;
        assert(text[at] == mark);
        assert forall|i: int| 0 <= i < at implies text[i] != mark by {
            assert(text[i] == head[i]);
            assert(head.contains(head[i]));
        }
        lemma_before_first(text, mark, at);
        assert(text.take(at) =~= head);
    }
}

/// A path is followed by a component behind exactly one more slash than it needs: none where
/// it is empty or ends in one. A component that starts at the root stands alone.
pub proof fn law_joined_paths(base: Seq<char>, component: Seq<char>)
    ensures
        component.len() > 0 && component[0] == '/' ==> joined(base, component) == component,
        !(component.len() > 0 && component[0] == '/') ==> {
            let path = joined(base, component);
            let slash = base.len() > 0 && base.last() != '/';
            &&& path.len() == base.len() + component.len() + if slash {
                1int
            } else {
                0
            }
            &&& path.take(base.len() as int) == base
            &&& path.skip(path.len() - component.len()) == component
            &&& slash ==> path[base.len() as int] == '/'
        },
{
    let path = joined(base, component);
    if !(component.len() > 0 && component[0] == '/') {
        assert(path.take(base.len() as int) =~= base);
        assert(path.skip(path.len() - component.len()) =~= component);
    }
}

/// Which characters may stand in the name of a file. Of ASCII the letters, the digits, `_` and
/// `-`; beyond it the ideographs, and what else is a letter or a number but neither white
/// space nor a control character.
pub proof fn law_which_characters_are_safe(c: char)
    ensures
        (c as u32) < 0x80 ==> {
            &&& track_safe(c) == ('a' <= c <= 'z' || 'A' <= c <= 'Z' || '0' <= c <= '9' || c == '_'
                || c == '-')
            &&& file_safe(c) == track_safe(c)
        },
        (c as u32) >= 0x80 ==> {
            &&& !track_safe(c)
            &&& 0x4e00 <= c as u32 <= 0x9fff ==> file_safe(c)
            &&& file_safe(c) && !(0x4e00 <= c as u32 <= 0x9fff) ==> unicode_alphanumeric(c)
            &&& (c as u32) > 0x3000 && unicode_alphanumeric(c) ==> file_safe(c)
            &&& (c as u32) < 0x1680 && (c as u32) > 0xa0 && unicode_alphanumeric(c) ==> file_safe(c)
        },
        white_space(c) ==> !file_safe(c),
        control(c) ==> !file_safe(c),
        c == ' ' || c == '\t' || c == '\n' || c == '\r' ==> white_space(c),
{
}

/// The name that a nickname gives a file follows the nickname character by character, from its
/// first safe character other than `_` on: each safe one stands as it is and each other one as
/// `_`. It ends after 48, or where nothing but unsafe characters and `_` follow.
pub proof fn law_safe_filename_follows_the_nickname(name: Seq<char>, from: int)
    requires
        0 <= from < name.len(),
        file_safe(name[from]) && name[from] != '_',
        forall|i: int| 0 <= i < from ==> (#[trigger] name[i] == '_' || !file_safe(name[i])),
    ensures
        ({
            let safe = safe_filename_of(name);
            &&& from + safe.len() <= name.len()
            &&& forall|i: int|
                0 <= i < safe.len() ==> #[trigger] safe[i] == if file_safe(name[from + i]) {
                    name[from + i]
                } else {
                    '_'
                }
            &&& safe.len() < 48 ==> safe.last() != '_' && forall|i: int|
                from + safe.len() <= i < name.len() ==> (#[trigger] name[i] == '_' || !file_safe(
                    name[i],
                ))
        }),
{
    let mapped = name.map_values(|c: char| if file_safe(c) { c } else { '_' });
    let p = |c: char| c == '_';
    let safe = safe_filename_of(name);
    assert forall|i: int| 0 <= i < from implies p(#[trigger] mapped[i]) by {
        assert(name[i] == '_' || !file_safe(name[i]));
    }
    assert(!p(mapped[from]));
    lemma_trim_start(mapped, p, from);
    let rest = trim_start(mapped, p);
    assert(rest =~= mapped.skip(from));
    lemma_trimmed_end(rest, p);
    lemma_trim_end_keeps_the_first(rest, p);
    let kept = trim_both(mapped, p);
    assert forall|i: int| 0 <= i < safe.len() implies #[trigger] safe[i] == if file_safe(
        name[from + i],
    ) {
        name[from + i]
    } else {
        '_'
    } by {
        assert(safe[i] == kept[i]);
        assert(kept[i] == rest[i]);
        assert(rest[i] == mapped[from + i]);
    }
    if safe.len() < 48 {
        assert(safe == kept);
        assert forall|i: int| from + safe.len() <= i < name.len() implies (#[trigger] name[i] == '_'
            || !file_safe(name[i])) by {
            assert(rest[i - from] == mapped[i]);
            assert(p(rest[i - from]));
        }
    }
}

/// A nickname without any safe character but `_` names its file `participant`.
pub proof fn law_unsafe_nickname_is_replaced(name: Seq<char>)
    requires
        forall|i: int| 0 <= i < name.len() ==> (#[trigger] name[i] == '_' || !file_safe(name[i])),
    ensures
        safe_filename_of(name) == "participant"@,
{
    let mapped = name.map_values(|c: char| if file_safe(c) { c } else { '_' });
    let p = |c: char| c == '_';
    assert forall|i: int| 0 <= i < mapped.len() implies p(#[trigger] mapped[i]) by {
        assert(name[i] == '_' || !file_safe(name[i]));
    }
    lemma_trimmed_start(mapped, p);
    let rest = trim_start(mapped, p);
    lemma_trimmed_end(rest, p);
    if rest.len() > 0 {
        assert(rest[0] == mapped[mapped.len() - rest.len()]);
    }
}

/// The name that a track id gives a file is made of its safe characters, in their order, and
/// holds each as often as it stands there.
pub proof fn law_safe_track_id_keeps_what_is_safe(head: Seq<char>, c: char, tail: Seq<char>)
    ensures
        safe_track_id_of(Seq::empty()) == Seq::<char>::empty(),
        safe_track_id_of(head.push(c) + tail) == safe_track_id_of(head) + (if 'a' <= c <= 'z'
            || 'A' <= c <= 'Z' || '0' <= c <= '9' || c == '_' || c == '-' {
            seq![c]
        } else {
            Seq::empty()
        }) + safe_track_id_of(tail),
{
    let p = |c: char| track_safe(c);
    reveal(Seq::filter);
    Seq::filter_distributes_over_add(head.push(c), tail, p);
    assert(head.push(c).drop_last() =~= head);
    assert(safe_track_id_of(Seq::empty()) =~= Seq::empty());
    assert(safe_track_id_of(head.push(c)) =~= safe_track_id_of(head) + (if track_safe(c) {
        seq![c]
    } else {
        Seq::empty()
    }));
}

/// Which characters are white space, and which are control characters.
pub proof fn law_white_space_and_control(c: char)
    ensures
        white_space(c) <==> {
            let v = c as u32;
            v == 9 || v == 10 || v == 11 || v == 12 || v == 13 || v == 32 || v == 133 || v == 160
                || v == 5760 || 8192 <= v <= 8202 || v == 8232 || v == 8233 || v == 8239 || v == 8287
                || v == 12288
        },
        control(c) <==> (c as u32) < 32 || 127 <= c as u32 <= 159,
{
}

/// What may stand between the parts of a JSON text is passed over, and nothing else.
pub proof fn law_json_space_is_passed_over(text: Seq<char>)
    ensures
        ({
            let rest = after_space(text);
            &&& rest.len() <= text.len()
            &&& rest == text.skip(text.len() - rest.len())
            &&& forall|k: int|
                0 <= k < text.len() - rest.len() ==> (#[trigger] text[k] == ' ' || text[k] == '\t'
                    || text[k] == '\n' || text[k] == '\r')
            &&& rest.len() > 0 ==> !(rest[0] == ' ' || rest[0] == '\t' || rest[0] == '\n'
                || rest[0] == '\r')
        }),
{
    lemma_trimmed_start(text, |c: char| json_space(c));
}

} // verus!
