//! Character classes, string building, number formatting and escaping.

use vstd::prelude::*;

verus! {

/// Calls `String::push`. The contract claims what std documents for it:
/// afterwards the string holds its old characters followed by `c`.
#[verifier::external_body]
pub(crate) fn push_char(s: &mut String, c: char)
    ensures
        final(s)@ == old(s)@.push(c),
{
    s.push(c);
}

/// Appends a string slice to a string.
pub(crate) fn push_str(s: &mut String, t: &str)
    ensures
        final(s)@ == old(s)@ + t@,
{
    s.append(t);
}

/// The decimal digit character for `d < 10`.
pub open spec fn digit_char(d: nat) -> char {
    (48 + d) as char
}

/// The decimal representation of `n`, without leading zeros ("0" for zero).
pub open spec fn dec(n: nat) -> Seq<char>
    decreases n,
{
    if n < 10 {
        seq![digit_char(n)]
    } else {
        dec(n / 10).push(digit_char(n % 10))
    }
}

fn digit(d: u64) -> (c: char)
    requires
        d < 10,
    ensures
        c == digit_char(d as nat),
{
    ((d as u8) + 48) as char
}

/// Appends the decimal representation of `n`.
pub(crate) fn push_dec(out: &mut String, n: u64)
    ensures
        final(out)@ == old(out)@ + dec(n as nat),
    decreases n,
{
    if n >= 10 {
        push_dec(out, n / 10);
    }
    push_char(out, digit(n % 10));
}

/// `{:04}`: the decimal representation of `n`, left-padded with zeros to
/// at least four characters.
pub open spec fn pad4(n: nat) -> Seq<char> {
    let d = dec(n);
    if d.len() < 4 {
        Seq::new((4 - d.len()) as nat, |i: int| '0') + d
    } else {
        d
    }
}

proof fn lemma_dec_len(n: nat)
    ensures
        n < 10 ==> dec(n).len() == 1,
        10 <= n < 100 ==> dec(n).len() == 2,
        100 <= n < 1000 ==> dec(n).len() == 3,
        1000 <= n ==> dec(n).len() >= 4,
    decreases n,
{
    if n >= 10 {
        lemma_dec_len(n / 10);
    }
}

/// Appends `n` formatted as `{:04}`.
pub(crate) fn push_pad4(out: &mut String, n: u64)
    ensures
        final(out)@ == old(out)@ + pad4(n as nat),
{
    proof {
        lemma_dec_len(n as nat);
    }
    let ghost start = out@;
    let zeros: usize = if n < 10 {
        3
    } else if n < 100 {
        2
    } else if n < 1000 {
        1
    } else {
        0
    };
    let mut i: usize = 0;
    while i < zeros
        invariant
            i <= zeros <= 3,
            out@ == start + Seq::new(i as nat, |k: int| '0'),
        decreases zeros - i,
    {
        push_char(out, '0');
        i = i + 1;
        assert(out@ =~= start + Seq::new(i as nat, |k: int| '0'));
    }
    push_dec(out, n);
    assert(out@ =~= start + pad4(n as nat));
}

/// `{:.3}` of `m / 1000`: the integer part, a point and exactly three
/// fractional digits.
pub open spec fn fixed3(m: nat) -> Seq<char> {
    dec(m / 1000) + seq![
        '.',
        digit_char((m % 1000) / 100),
        digit_char((m % 100) / 10),
        digit_char(m % 10),
    ]
}

/// Appends `m / 1000` with exactly three decimals.
pub(crate) fn push_fixed3(out: &mut String, m: u64)
    ensures
        final(out)@ == old(out)@ + fixed3(m as nat),
{
    let ghost start = out@;
    push_dec(out, m / 1000);
    push_char(out, '.');
    push_char(out, digit((m % 1000) / 100));
    push_char(out, digit((m % 100) / 10));
    push_char(out, digit(m % 10));
    assert(out@ =~= start + fixed3(m as nat));
}

/// A lower-case hexadecimal digit for `d < 16`.
pub open spec fn hex_digit(d: nat) -> char {
    if d < 10 {
        (48 + d) as char
    } else {
        (87 + d) as char
    }
}

/// `{:02x}`: two lower-case hexadecimal digits.
pub open spec fn hex2(b: u8) -> Seq<char> {
    seq![hex_digit((b / 16) as nat), hex_digit((b % 16) as nat)]
}

fn hex_digit_exec(d: u8) -> (c: char)
    requires
        d < 16,
    ensures
        c == hex_digit(d as nat),
{
    if d < 10 {
        (d + 48) as char
    } else {
        (d + 87) as char
    }
}

/// Appends `b` formatted as `{:02x}`.
pub(crate) fn push_hex2(out: &mut String, b: u8)
    ensures
        final(out)@ == old(out)@ + hex2(b),
{
    let ghost start = out@;
    push_char(out, hex_digit_exec(b / 16));
    push_char(out, hex_digit_exec(b % 16));
    assert(out@ =~= start + hex2(b));
}

/// `char::is_control`: the general category Cc (U+0000–U+001F, U+007F–U+009F).
pub open spec fn is_control(c: char) -> bool {
    (c as u32) <= 0x1f || (0x7f <= (c as u32) && (c as u32) <= 0x9f)
}

fn is_control_exec(c: char) -> (b: bool)
    ensures
        b == is_control(c),
{
    let v = c as u32;
    v <= 0x1f || (0x7f <= v && v <= 0x9f)
}

/// `char::is_whitespace`: the Unicode `White_Space` property.
pub open spec fn is_whitespace(c: char) -> bool {
    let v = c as u32;
    ||| 0x09 <= v <= 0x0d
    ||| v == 0x20
    ||| v == 0x85
    ||| v == 0xa0
    ||| v == 0x1680
    ||| 0x2000 <= v <= 0x200a
    ||| v == 0x2028
    ||| v == 0x2029
    ||| v == 0x202f
    ||| v == 0x205f
    ||| v == 0x3000
}

fn is_whitespace_exec(c: char) -> (b: bool)
    ensures
        b == is_whitespace(c),
{
    let v = c as u32;
    (0x09 <= v && v <= 0x0d) || v == 0x20 || v == 0x85 || v == 0xa0 || v == 0x1680 || (0x2000
        <= v && v <= 0x200a) || v == 0x2028 || v == 0x2029 || v == 0x202f || v == 0x205f || v
        == 0x3000
}

/// `s` with every control character removed, the rest in order.
pub open spec fn strip_controls(s: Seq<char>) -> Seq<char>
    decreases s.len(),
{
    if s.len() == 0 {
        seq![]
    } else if is_control(s.last()) {
        strip_controls(s.drop_last())
    } else {
        strip_controls(s.drop_last()).push(s.last())
    }
}

/// Strips C0 and C1 control characters (U+0000–U+001F, U+007F–U+009F)
/// before a string is handed to the URL parser.
///
/// Several browsers silently ignore control characters when matching URL
/// schemes, so `"java\x01script:"` would reach the page as `"javascript:"`.
pub fn strip_url_controls(s: &str) -> (res: String)
    ensures
        res@ == strip_controls(s@),
{
    let n = s.unicode_len();
    let mut out = String::new();
    let mut i: usize = 0;
    while i < n
        invariant
            n == s@.len(),
            i <= n,
            out@ == strip_controls(s@.take(i as int)),
        decreases n - i,
    {
        let c = s.get_char(i);
        assert(s@.take(i + 1).drop_last() =~= s@.take(i as int));
        if !is_control_exec(c) {
            push_char(&mut out, c);
        }
        i = i + 1;
    }
    assert(s@.take(n as int) =~= s@);
    out
}

/// The number of whitespace characters at `s[i..]`'s start.
pub open spec fn lead_ws(s: Seq<char>, i: int) -> nat
    decreases s.len() - i,
{
    if 0 <= i < s.len() && is_whitespace(s[i]) {
        1 + lead_ws(s, i + 1)
    } else {
        0
    }
}

/// The number of whitespace characters at the end of `s[..j]`.
pub open spec fn trail_ws(s: Seq<char>, j: int) -> nat
    decreases j,
{
    if 0 < j <= s.len() && is_whitespace(s[j - 1]) {
        1 + trail_ws(s, j - 1)
    } else {
        0
    }
}

/// `str::trim`: `s` without its leading and trailing whitespace.
pub open spec fn trim(s: Seq<char>) -> Seq<char> {
    let t = s.skip(lead_ws(s, 0) as int);
    t.take(t.len() - trail_ws(t, t.len() as int))
}

/// Removes leading and trailing whitespace.
pub fn trim_str(s: &str) -> (res: &str)
    ensures
        res@ == trim(s@),
{
    let n = s.unicode_len();
    let mut a: usize = 0;
    while a < n && is_whitespace_exec(s.get_char(a))
        invariant
            n == s@.len(),
            a <= n,
            lead_ws(s@, 0) == a + lead_ws(s@, a as int),
        decreases n - a,
    {
        a = a + 1;
    }
    let ghost t = s@.skip(a as int);
    let mut b: usize = n;
    while b > a && is_whitespace_exec(s.get_char(b - 1))
        invariant
            n == s@.len(),
            a <= b <= n,
            t == s@.skip(a as int),
            trail_ws(t, t.len() as int) == (n - b) + trail_ws(t, b - a),
        decreases b,
    {
        assert(t[b - a - 1] == s@[b - 1]);
        b = b - 1;
    }
    assert(t.take(t.len() - trail_ws(t, t.len() as int)) =~= s@.subrange(a as int, b as int));
    s.substring_char(a, b)
}

/// Whether two strings hold the same characters.
pub fn str_eq(a: &str, b: &str) -> (r: bool)
    ensures
        r == (a@ == b@),
{
    let n = a.unicode_len();
    if n != b.unicode_len() {
        return false;
    }
    let mut i: usize = 0;
    while i < n
        invariant
            n == a@.len(),
            n == b@.len(),
            i <= n,
            a@.take(i as int) == b@.take(i as int),
        decreases n - i,
    {
        if a.get_char(i) != b.get_char(i) {
            assert(a@[i as int] != b@[i as int]);
            return false;
        }
        assert(a@.take(i + 1) =~= a@.take(i as int).push(a@[i as int]));
        assert(b@.take(i + 1) =~= b@.take(i as int).push(b@[i as int]));
        i = i + 1;
    }
    assert(a@ =~= a@.take(n as int));
    assert(b@ =~= b@.take(n as int));
    true
}

/// The replacement text of one character in HTML/XML text or attributes.
pub open spec fn escape_char(c: char) -> Seq<char> {
    if c == '&' {
        "&amp;"@
    } else if c == '<' {
        "&lt;"@
    } else if c == '>' {
        "&gt;"@
    } else if c == '"' {
        "&quot;"@
    } else if c == '\'' {
        "&#39;"@
    } else {
        seq![c]
    }
}

/// `s` with `& < > " '` replaced by their character references.
pub open spec fn escape(s: Seq<char>) -> Seq<char>
    decreases s.len(),
{
    if s.len() == 0 {
        seq![]
    } else {
        escape(s.drop_last()) + escape_char(s.last())
    }
}

/// Appends `c` escaped for HTML/XML.
pub(crate) fn push_escaped_char(out: &mut String, c: char)
    ensures
        final(out)@ == old(out)@ + escape_char(c),
{
    if c == '&' {
        push_str(out, "&amp;");
    } else if c == '<' {
        push_str(out, "&lt;");
    } else if c == '>' {
        push_str(out, "&gt;");
    } else if c == '"' {
        push_str(out, "&quot;");
    } else if c == '\'' {
        push_str(out, "&#39;");
    } else {
        push_char(out, c);
    }
}

/// Appends `s` escaped for HTML/XML.
pub(crate) fn push_escaped(out: &mut String, s: &str)
    ensures
        final(out)@ == old(out)@ + escape(s@),
{
    let ghost start = out@;
    let n = s.unicode_len();
    let mut i: usize = 0;
    while i < n
        invariant
            n == s@.len(),
            i <= n,
            out@ == start + escape(s@.take(i as int)),
        decreases n - i,
    {
        let c = s.get_char(i);
        assert(s@.take(i + 1).drop_last() =~= s@.take(i as int));
        push_escaped_char(out, c);
        i = i + 1;
        assert(out@ =~= start + escape(s@.take(i as int)));
    }
    assert(s@.take(n as int) =~= s@);
}

/// Escapes `& < > " '` for safe embedding in HTML text and attribute values.
pub fn html_escape(s: &str) -> (res: String)
    ensures
        res@ == escape(s@),
{
    let mut out = String::new();
    push_escaped(&mut out, s);
    assert(out@ =~= escape(s@));
    out
}

/// Escapes text content for safe embedding inside an SVG document.
pub fn svg_escape(s: &str) -> (res: String)
    ensures
        res@ == escape(s@),
{
    let mut out = String::new();
    push_escaped(&mut out, s);
    assert(out@ =~= escape(s@));
    out
}

/// The characters that escaping replaces.
pub open spec fn is_markup_char(c: char) -> bool {
    c == '&' || c == '<' || c == '>' || c == '"' || c == '\''
}

proof fn lemma_escape_char_no_markup(c: char)
    ensures
        forall|i: int|
            0 <= i < escape_char(c).len() ==> {
                let e = #[trigger] escape_char(c)[i];
                e != '<' && e != '>' && e != '"' && e != '\''
            },
{
    reveal_strlit("&amp;");
    reveal_strlit("&lt;");
    reveal_strlit("&gt;");
    reveal_strlit("&quot;");
    reveal_strlit("&#39;");
}

/// Escaped text holds no `<`, `>`, `"` or `'`: it cannot open or close a
/// tag, nor end a quoted attribute value.
pub proof fn law_escape_has_no_markup(s: Seq<char>)
    ensures
        forall|i: int|
            0 <= i < escape(s).len() ==> {
                let e = #[trigger] escape(s)[i];
                e != '<' && e != '>' && e != '"' && e != '\''
            },
    decreases s.len(),
{
    if s.len() > 0 {
        law_escape_has_no_markup(s.drop_last());
        lemma_escape_char_no_markup(s.last());
        let a = escape(s.drop_last());
        let b = escape_char(s.last());
        assert forall|i: int| 0 <= i < (a + b).len() implies {
            let e = #[trigger] (a + b)[i];
            e != '<' && e != '>' && e != '"' && e != '\''
        } by {
            if i < a.len() {
                assert((a + b)[i] == a[i]);
            } else {
                assert((a + b)[i] == b[i - a.len()]);
            }
        }
    }
}

/// Text without any of `& < > " '` is left exactly as it is.
pub proof fn law_escape_keeps_plain_text(s: Seq<char>)
    requires
        forall|i: int| 0 <= i < s.len() ==> !is_markup_char(#[trigger] s[i]),
    ensures
        escape(s) == s,
    decreases s.len(),
{
    if s.len() > 0 {
        law_escape_keeps_plain_text(s.drop_last());
        assert(s.drop_last() + seq![s.last()] =~= s);
    }
}

/// The character reference that `t` starts with, as the character it stands
/// for and its length: one of `&amp;`, `&lt;`, `&gt;`, `&quot;` or `&#39;`.
pub open spec fn entity_at(t: Seq<char>) -> Option<(char, nat)> {
    if t.len() >= 5 && t[0] == '&' && t[1] == 'a' && t[2] == 'm' && t[3] == 'p' && t[4] == ';' {
        Some(('&', 5))
    } else if t.len() >= 4 && t[0] == '&' && t[1] == 'l' && t[2] == 't' && t[3] == ';' {
        Some(('<', 4))
    } else if t.len() >= 4 && t[0] == '&' && t[1] == 'g' && t[2] == 't' && t[3] == ';' {
        Some(('>', 4))
    } else if t.len() >= 6 && t[0] == '&' && t[1] == 'q' && t[2] == 'u' && t[3] == 'o' && t[4]
        == 't' && t[5] == ';' {
        Some(('"', 6))
    } else if t.len() >= 5 && t[0] == '&' && t[1] == '#' && t[2] == '3' && t[3] == '9' && t[4]
        == ';' {
        Some(('\'', 5))
    } else {
        None
    }
}

/// `t` with the five character references that escaping writes decoded,
/// read from the front; every other character is kept.
pub open spec fn unescape(t: Seq<char>) -> Seq<char>
    decreases t.len(),
{
    if t.len() == 0 {
        seq![]
    } else {
        match entity_at(t) {
            Some((c, l)) => seq![c] + unescape(t.skip(l as int)),
            None => seq![t[0]] + unescape(t.skip(1)),
        }
    }
}

proof fn lemma_escape_append(a: Seq<char>, b: Seq<char>)
    ensures
        escape(a + b) == escape(a) + escape(b),
    decreases b.len(),
{
    if b.len() == 0 {
        assert(a + b =~= a);
    } else {
        lemma_escape_append(a, b.drop_last());
        assert((a + b).drop_last() =~= a + b.drop_last());
        assert((a + b).last() == b.last());
    }
}

proof fn lemma_escape_front(s: Seq<char>)
    requires
        s.len() > 0,
    ensures
        escape(s) == escape_char(s[0]) + escape(s.skip(1)),
{
    lemma_escape_append(seq![s[0]], s.skip(1));
    assert(seq![s[0]] + s.skip(1) =~= s);
    let one = seq![s[0]];
    assert(one.drop_last() =~= Seq::<char>::empty());
    assert(escape(one.drop_last()) == Seq::<char>::empty());
    assert(escape(one) =~= escape_char(s[0]));
}

proof fn lemma_reveal_entities()
    ensures
        "&amp;"@ =~= seq!['&', 'a', 'm', 'p', ';'],
        "&lt;"@ =~= seq!['&', 'l', 't', ';'],
        "&gt;"@ =~= seq!['&', 'g', 't', ';'],
        "&quot;"@ =~= seq!['&', 'q', 'u', 'o', 't', ';'],
        "&#39;"@ =~= seq!['&', '#', '3', '9', ';'],
{
    reveal_strlit("&amp;");
    reveal_strlit("&lt;");
    reveal_strlit("&gt;");
    reveal_strlit("&quot;");
    reveal_strlit("&#39;");
}

proof fn lemma_unescape_escaped_char(c: char, rest: Seq<char>)
    ensures
        unescape(escape_char(c) + rest) == seq![c] + unescape(rest),
{
    lemma_reveal_entities();
    let t = escape_char(c) + rest;
    assert(t.skip(escape_char(c).len() as int) =~= rest);
    assert(t[0] == escape_char(c)[0]);
    if is_markup_char(c) {
        assert(t[1] == escape_char(c)[1]);
        assert(t[2] == escape_char(c)[2]);
        assert(t[3] == escape_char(c)[3]);
        if c == '&' || c == '"' || c == '\'' {
            assert(t[4] == escape_char(c)[4]);
        }
        if c == '"' {
            assert(t[5] == escape_char(c)[5]);
        }
    }
}

/// Decoding the five character references of escaped text gives back the
/// text: escaping loses nothing.
pub proof fn law_unescape_inverts_escape(s: Seq<char>)
    ensures
        unescape(escape(s)) == s,
    decreases s.len(),
{
    if s.len() > 0 {
        lemma_escape_front(s);
        lemma_unescape_escaped_char(s[0], escape(s.skip(1)));
        law_unescape_inverts_escape(s.skip(1));
        assert(seq![s[0]] + s.skip(1) =~= s);
    }
}

proof fn lemma_entity_extends(x: Seq<char>, y: Seq<char>)
    requires
        entity_at(x) is Some,
    ensures
        entity_at(x + y) == entity_at(x),
{
    let t = x + y;
    assert(t[0] == x[0]);
    assert(t[1] == x[1]);
    assert(t[2] == x[2]);
    assert(t[3] == x[3]);
    if x.len() >= 5 {
        assert(t[4] == x[4]);
    }
    if x.len() >= 6 {
        assert(t[5] == x[5]);
    }
}

/// In escaped text every `&` begins one of the five character references:
/// no `&` of the text itself survives unescaped.
pub proof fn law_escape_ampersands_start_entities(s: Seq<char>)
    ensures
        forall|i: int|
            0 <= i < escape(s).len() && escape(s)[i] == '&' ==> entity_at(
                #[trigger] escape(s).skip(i),
            ) is Some,
    decreases s.len(),
{
    if s.len() > 0 {
        law_escape_ampersands_start_entities(s.drop_last());
        lemma_reveal_entities();
        let a = escape(s.drop_last());
        let b = escape_char(s.last());
        assert forall|i: int| 0 <= i < (a + b).len() && (a + b)[i] == '&' implies entity_at(
            #[trigger] (a + b).skip(i),
        ) is Some by {
            if i < a.len() {
                assert(a[i] == (a + b)[i]);
                assert(entity_at(a.skip(i)) is Some);
                lemma_entity_extends(a.skip(i), b);
                assert((a + b).skip(i) =~= a.skip(i) + b);
            } else {
                assert((a + b)[i] == b[i - a.len()]);
                assert(i == a.len());
                assert((a + b).skip(i) =~= b);
            }
        }
    }
}

proof fn lemma_escape_len(s: Seq<char>)
    ensures
        escape(s).len() >= s.len(),
        (exists|i: int| 0 <= i < s.len() && is_markup_char(#[trigger] s[i])) ==> escape(s).len()
            > s.len(),
    decreases s.len(),
{
    if s.len() > 0 {
        lemma_escape_len(s.drop_last());
        lemma_reveal_entities();
        if exists|i: int| 0 <= i < s.len() && is_markup_char(#[trigger] s[i]) {
            let i = choose|i: int| 0 <= i < s.len() && is_markup_char(#[trigger] s[i]);
            if i < s.len() - 1 {
                assert(s.drop_last()[i] == s[i]);
            }
        }
    }
}

/// Escaping leaves text unchanged exactly when the text holds none of
/// `& < > " '`.
pub proof fn law_escape_is_identity_iff_plain(s: Seq<char>)
    ensures
        escape(s) == s <==> forall|i: int| 0 <= i < s.len() ==> !is_markup_char(#[trigger] s[i]),
{
    lemma_escape_len(s);
    if forall|i: int| 0 <= i < s.len() ==> !is_markup_char(#[trigger] s[i]) {
        law_escape_keeps_plain_text(s);
    }
}

/// A decimal digit `0`..`9`.
pub open spec fn is_digit(c: char) -> bool {
    '0' <= c && c <= '9'
}

/// The number that a string of decimal digits reads as (most significant
/// digit first; 0 for the empty string).
pub open spec fn digits_value(s: Seq<char>) -> nat
    decreases s.len(),
{
    if s.len() == 0 {
        0
    } else {
        digits_value(s.drop_last()) * 10 + (s.last() as int - '0' as int) as nat
    }
}

/// The decimal representation of `n` is a non-empty string of digits that
/// reads back as `n`, with no leading zero unless `n` is zero.
pub proof fn law_dec_reads_back(n: nat)
    ensures
        dec(n).len() >= 1,
        forall|i: int| 0 <= i < dec(n).len() ==> is_digit(#[trigger] dec(n)[i]),
        digits_value(dec(n)) == n,
        dec(n)[0] == '0' ==> n == 0,
    decreases n,
{
    if n >= 10 {
        law_dec_reads_back(n / 10);
        let d = dec(n);
        assert(d.drop_last() =~= dec(n / 10));
        assert(d[0] == dec(n / 10)[0]);
        assert(d.last() == digit_char(n % 10));
        assert(digit_char(n % 10) as int == 48 + n % 10);
        assert('0' as int == 48);
        assert(digits_value(d) == digits_value(d.drop_last()) * 10 + (d.last() as int - '0' as int) as nat);
        assert(n == (n / 10) * 10 + n % 10);
    } else {
        assert(digit_char(n) as int == 48 + n);
        assert('0' as int == 48);
        assert(dec(n).drop_last() =~= Seq::<char>::empty());
        assert(digits_value(Seq::<char>::empty()) == 0);
        assert(digits_value(dec(n)) == digits_value(dec(n).drop_last()) * 10 + (dec(n).last() as int
            - '0' as int) as nat);
    }
}

proof fn lemma_zeros_value(z: nat, d: Seq<char>)
    ensures
        digits_value(Seq::new(z, |i: int| '0') + d) == digits_value(d),
    decreases z + d.len(),
{
    let zs = Seq::new(z, |i: int| '0');
    if d.len() > 0 {
        lemma_zeros_value(z, d.drop_last());
        assert((zs + d).drop_last() =~= zs + d.drop_last());
        assert((zs + d).last() == d.last());
    } else if z > 0 {
        lemma_zeros_value((z - 1) as nat, d);
        assert((zs + d).drop_last() =~= Seq::new((z - 1) as nat, |i: int| '0') + d);
        assert(zs + d =~= zs);
    } else {
        assert(zs + d =~= Seq::<char>::empty());
    }
}

/// `{:04}` of `n` is all digits and reads back as `n`; below 10000 it has
/// exactly four characters, and from 10000 on it has no leading zero.
pub proof fn law_pad4_reads_back(n: nat)
    ensures
        forall|i: int| 0 <= i < pad4(n).len() ==> is_digit(#[trigger] pad4(n)[i]),
        digits_value(pad4(n)) == n,
        n < 10000 ==> pad4(n).len() == 4,
        n >= 10000 ==> pad4(n)[0] != '0',
{
    law_dec_reads_back(n);
    lemma_dec_len(n);
    lemma_dec_len_big(n);
    let d = dec(n);
    if d.len() < 4 {
        let z = (4 - d.len()) as nat;
        lemma_zeros_value(z, d);
        let p = Seq::new(z, |i: int| '0') + d;
        assert forall|i: int| 0 <= i < p.len() implies is_digit(#[trigger] p[i]) by {
            if i >= z {
                assert(p[i] == d[i - z]);
            }
        }
    }
}

proof fn lemma_dec_len_big(n: nat)
    ensures
        n < 10000 ==> dec(n).len() <= 4,
        n >= 10000 ==> dec(n).len() >= 5,
    decreases n,
{
    lemma_dec_len(n);
    if n >= 10 {
        lemma_dec_len(n / 10);
        assert(dec(n).len() == dec(n / 10).len() + 1);
        assert(n < 10000 ==> n / 10 < 1000);
        assert(n >= 10000 ==> n / 10 >= 1000);
    }
}

/// `w` occurs in `s` starting at position `p`.
pub open spec fn occurs_at(s: Seq<char>, w: Seq<char>, p: int) -> bool {
    0 <= p <= s.len() && w.is_prefix_of(s.skip(p))
}

/// `w` occurs somewhere in `s`.
pub open spec fn has_sub(s: Seq<char>, w: Seq<char>) -> bool {
    exists|p: int| #[trigger] occurs_at(s, w, p)
}

/// An occurrence inside `b` is an occurrence inside `a + b + c`, shifted.
pub proof fn lemma_occurs_inside(a: Seq<char>, b: Seq<char>, c: Seq<char>, w: Seq<char>, p: int)
    requires
        occurs_at(b, w, p),
    ensures
        occurs_at(a + b + c, w, a.len() + p),
        has_sub(a + b + c, w),
{
    let t = a + b + c;
    assert(t.skip(a.len() + p).subrange(0, w.len() as int) =~= b.skip(p).subrange(
        0,
        w.len() as int,
    ));
    assert(occurs_at(t, w, a.len() + p));
}

/// A lower-case hexadecimal digit `0`..`9`, `a`..`f`.
pub open spec fn is_lower_hex(c: char) -> bool {
    ('0' <= c && c <= '9') || ('a' <= c && c <= 'f')
}

/// The value of a hexadecimal digit.
pub open spec fn hex_value(c: char) -> nat {
    if '0' <= c && c <= '9' {
        (c as int - '0' as int) as nat
    } else {
        (c as int - 'a' as int + 10) as nat
    }
}

/// `{:02x}` of a byte is two lower-case hexadecimal digits, high nibble
/// first, that read back as the byte.
pub proof fn law_hex2_reads_back(b: u8)
    ensures
        hex2(b).len() == 2,
        is_lower_hex(hex2(b)[0]) && is_lower_hex(hex2(b)[1]),
        hex_value(hex2(b)[0]) * 16 + hex_value(hex2(b)[1]) == b,
{
    let hi = (b / 16) as nat;
    let lo = (b % 16) as nat;
    assert(hi < 16 && lo < 16);
    assert('0' as int == 48 && '9' as int == 57 && 'a' as int == 97 && 'f' as int == 102);
    assert(hex_digit(hi) as int == if hi < 10 { 48 + hi } else { 87 + hi });
    assert(hex_digit(lo) as int == if lo < 10 { 48 + lo } else { 87 + lo });
    assert(b == hi * 16 + lo);
}

/// `{:.3}` of `m / 1000` is the decimal integer part, a point and exactly
/// three digits, and reads back as `m` thousandths.
pub proof fn law_fixed3_reads_back(m: nat)
    ensures
        ({
            let f = fixed3(m);
            let k = f.len() - 4;
            &&& k >= 1
            &&& f[k] == '.'
            &&& forall|i: int| 0 <= i < f.len() && i != k ==> is_digit(#[trigger] f[i])
            &&& digits_value(f.take(k)) * 1000 + digits_value(f.skip(k + 1)) == m
        }),
{
    law_dec_reads_back(m / 1000);
    let f = fixed3(m);
    let ip = dec(m / 1000);
    let a = (m % 1000) / 100;
    let b = (m % 100) / 10;
    let c = m % 10;
    assert(a < 10 && b < 10 && c < 10);
    assert('0' as int == 48);
    assert(digit_char(a) as int == 48 + a);
    assert(digit_char(b) as int == 48 + b);
    assert(digit_char(c) as int == 48 + c);
    let k = f.len() - 4;
    assert(f.take(k) =~= ip);
    let frac = f.skip(k + 1);
    assert(frac =~= seq![digit_char(a), digit_char(b), digit_char(c)]);
    assert(frac.drop_last().drop_last().drop_last() =~= Seq::<char>::empty());
    assert(digits_value(frac.drop_last().drop_last().drop_last()) == 0);
    assert(frac.drop_last().drop_last().last() == digit_char(a));
    assert(digits_value(frac.drop_last().drop_last()) == a);
    assert(digits_value(frac.drop_last()) == a * 10 + b);
    assert(digits_value(frac) == (a * 10 + b) * 10 + c);
    assert(m == (m / 1000) * 1000 + a * 100 + b * 10 + c);
    assert forall|i: int| 0 <= i < f.len() && i != k implies is_digit(#[trigger] f[i]) by {
        if i < k {
            assert(f[i] == ip[i]);
        }
    }
}

} // verus!
