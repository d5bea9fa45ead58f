//! The token grammar of RFC 2812 (nicks, users, hosts, channels, commands)
//! and of IRCv3 message tags (keys and values).
use crate::text::{
    all_in, any_in, blen, lemma_contains_concat, lemma_split_no_char, skip_upto, split, split_char, split_once,
    split_once_char, take_upto, views,
};
use vstd::prelude::*;
use vstd::string::*;

verus! {

pub const MAX_HOSTNAME_SIZE: usize = 253;
pub const MAX_SHORTNAME_SIZE: usize = 63;
pub const MAX_CHANNAME_SIZE: usize = 50;
pub const MAX_NICKNAME_SIZE: usize = 9;
pub const CHANNELID_SIZE: usize = 5;
pub const MAX_MSG_SIZE: usize = 512;
pub const MAX_TAGS_SIZE: usize = 4094;
pub const MAX_TAGS_SIZE_TOTAL: usize = 8191;
/// Including the trailing parameter, not including the command.
pub const MAX_MSG_PARAMS: usize = 15;
pub const LETTER: &'static str = "abcdefghijklmnopqrstuvwxyzABCDEFGHIJKLMNOPQRSTUVWXYZ";
pub const UPPER: &'static str = "ABCDEFGHIJKLMNOPQRSTUVWXYZ";
pub const LOWER: &'static str = "abcdefghijklmnopqrstuvwxyz";
pub const SPECIAL: &'static str = "[]\\`_^{|}";
pub const DIGIT: &'static str = "0123456789";
pub const HEXDIGIT: &'static str = "0123456789ABCDEF";
/// A user may hold any character but these.
pub const CONTROL: &'static str = "\0\r\n :";
pub const NOT_USER: &'static str = "\0\r\n @";
pub const NOT_TAGVAL: &'static str = "\0\r\n ;";
pub const NOT_CHANSTRING: &'static str = "\0\r\n\x07, :";

// ---------------------------------------------------------------------------
// character classes

pub open spec fn is_lower(c: char) -> bool {
    'a' <= c && c <= 'z'
}

pub open spec fn is_upper(c: char) -> bool {
    'A' <= c && c <= 'Z'
}

pub open spec fn is_letter(c: char) -> bool {
    is_lower(c) || is_upper(c)
}

pub open spec fn is_digit(c: char) -> bool {
    '0' <= c && c <= '9'
}

pub open spec fn is_special(c: char) -> bool {
    c == '[' || c == ']' || c == '\\' || c == '`' || c == '_' || c == '^' || c == '{' || c == '|'
        || c == '}'
}

/// NUL, CR, LF, space and `@`: what a user string may not hold.
pub open spec fn is_not_user(c: char) -> bool {
    c == '\0' || c == '\r' || c == '\n' || c == ' ' || c == '@'
}

/// NUL, CR, LF, space and `;`: what a tag value may not hold.
pub open spec fn is_not_tagval(c: char) -> bool {
    c == '\0' || c == '\r' || c == '\n' || c == ' ' || c == ';'
}

/// NUL, BELL, CR, LF, comma, space and colon: what a chanstring may not hold.
pub open spec fn is_not_chanstring(c: char) -> bool {
    c == '\0' || c == '\r' || c == '\n' || c == '\x07' || c == ',' || c == ' ' || c == ':'
}

proof fn lemma_lower_set(c: char)
    ensures
        LOWER@.contains(c) <==> is_lower(c),
{
    reveal_strlit("abcdefghijklmnopqrstuvwxyz");
    assert(LOWER@ =~= seq![
        'a', 'b', 'c', 'd', 'e', 'f', 'g', 'h', 'i', 'j', 'k', 'l', 'm', 'n', 'o', 'p', 'q', 'r',
        's', 't', 'u', 'v', 'w', 'x', 'y', 'z',
    ]);
    if is_lower(c) {
        assert(LOWER@[(c as int) - ('a' as int)] == c);
    }
}

proof fn lemma_upper_set(c: char)
    ensures
        UPPER@.contains(c) <==> is_upper(c),
{
    reveal_strlit("ABCDEFGHIJKLMNOPQRSTUVWXYZ");
    assert(UPPER@ =~= seq![
        'A', 'B', 'C', 'D', 'E', 'F', 'G', 'H', 'I', 'J', 'K', 'L', 'M', 'N', 'O', 'P', 'Q', 'R',
        'S', 'T', 'U', 'V', 'W', 'X', 'Y', 'Z',
    ]);
    if is_upper(c) {
        assert(UPPER@[(c as int) - ('A' as int)] == c);
    }
}

proof fn lemma_letter_set(c: char)
    ensures
        LETTER@.contains(c) <==> is_letter(c),
{
    reveal_strlit("abcdefghijklmnopqrstuvwxyzABCDEFGHIJKLMNOPQRSTUVWXYZ");
    assert(LETTER@ =~= seq![
        'a', 'b', 'c', 'd', 'e', 'f', 'g', 'h', 'i', 'j', 'k', 'l', 'm', 'n', 'o', 'p', 'q', 'r',
        's', 't', 'u', 'v', 'w', 'x', 'y', 'z', 'A', 'B', 'C', 'D', 'E', 'F', 'G', 'H', 'I', 'J',
        'K', 'L', 'M', 'N', 'O', 'P', 'Q', 'R', 'S', 'T', 'U', 'V', 'W', 'X', 'Y', 'Z',
    ]);
    if is_lower(c) {
        assert(LETTER@[(c as int) - ('a' as int)] == c);
    } else if is_upper(c) {
        assert(LETTER@[(c as int) - ('A' as int) + 26] == c);
    }
}

proof fn lemma_digit_set(c: char)
    ensures
        DIGIT@.contains(c) <==> is_digit(c),
{
    reveal_strlit("0123456789");
    assert(DIGIT@ =~= seq!['0', '1', '2', '3', '4', '5', '6', '7', '8', '9']);
    if is_digit(c) {
        assert(DIGIT@[(c as int) - ('0' as int)] == c);
    }
}

proof fn lemma_special_set(c: char)
    ensures
        SPECIAL@.contains(c) <==> is_special(c),
{
    reveal_strlit("[]\\`_^{|}");
    let s = seq!['[', ']', '\\', '`', '_', '^', '{', '|', '}'];
    assert(SPECIAL@ =~= s);
    if c == '[' {
        assert(s[0] == c);
    } else if c == ']' {
        assert(s[1] == c);
    } else if c == '\\' {
        assert(s[2] == c);
    } else if c == '`' {
        assert(s[3] == c);
    } else if c == '_' {
        assert(s[4] == c);
    } else if c == '^' {
        assert(s[5] == c);
    } else if c == '{' {
        assert(s[6] == c);
    } else if c == '|' {
        assert(s[7] == c);
    } else if c == '}' {
        assert(s[8] == c);
    }
}

proof fn lemma_dash_set(c: char)
    ensures
        "-"@.contains(c) <==> c == '-',
{
    reveal_strlit("-");
    assert("-"@ =~= seq!['-']);
    if c == '-' {
        assert("-"@[0] == c);
    }
}

proof fn lemma_not_user_set(c: char)
    ensures
        NOT_USER@.contains(c) <==> is_not_user(c),
{
    reveal_strlit("\0\r\n @");
    let s = seq!['\0', '\r', '\n', ' ', '@'];
    assert(NOT_USER@ =~= s);
    if c == '\0' {
        assert(s[0] == c);
    } else if c == '\r' {
        assert(s[1] == c);
    } else if c == '\n' {
        assert(s[2] == c);
    } else if c == ' ' {
        assert(s[3] == c);
    } else if c == '@' {
        assert(s[4] == c);
    }
}

proof fn lemma_not_tagval_set(c: char)
    ensures
        NOT_TAGVAL@.contains(c) <==> is_not_tagval(c),
{
    reveal_strlit("\0\r\n ;");
    let s = seq!['\0', '\r', '\n', ' ', ';'];
    assert(NOT_TAGVAL@ =~= s);
    if c == '\0' {
        assert(s[0] == c);
    } else if c == '\r' {
        assert(s[1] == c);
    } else if c == '\n' {
        assert(s[2] == c);
    } else if c == ' ' {
        assert(s[3] == c);
    } else if c == ';' {
        assert(s[4] == c);
    }
}

proof fn lemma_not_chanstring_set(c: char)
    ensures
        NOT_CHANSTRING@.contains(c) <==> is_not_chanstring(c),
{
    reveal_strlit("\0\r\n\x07, :");
    let s = seq!['\0', '\r', '\n', '\x07', ',', ' ', ':'];
    assert(NOT_CHANSTRING@ =~= s);
    if c == '\0' {
        assert(s[0] == c);
    } else if c == '\r' {
        assert(s[1] == c);
    } else if c == '\n' {
        assert(s[2] == c);
    } else if c == '\x07' {
        assert(s[3] == c);
    } else if c == ',' {
        assert(s[4] == c);
    } else if c == ' ' {
        assert(s[5] == c);
    } else if c == ':' {
        assert(s[6] == c);
    }
}

// ---------------------------------------------------------------------------
// the grammar, as mathematics

/// A character of a tag key after the optional `+` and vendor.
pub open spec fn is_key_char(c: char) -> bool {
    is_letter(c) || is_digit(c) || c == '-'
}

/// A character of a shortname.
pub open spec fn is_shortname_char(c: char) -> bool {
    is_lower(c) || is_digit(c) || c == '-'
}

/// A character that may start a nick.
pub open spec fn is_nick_first_char(c: char) -> bool {
    is_letter(c) || is_special(c)
}

/// A character that may follow the first in a nick.
pub open spec fn is_nick_char(c: char) -> bool {
    is_letter(c) || is_special(c) || is_digit(c) || c == '-'
}

/// Every character is a letter, a digit or `-`.
pub open spec fn all_key_chars(s: Seq<char>) -> bool {
    forall|i: int| 0 <= i < s.len() ==> is_key_char(#[trigger] s[i])
}

/// Every character is a lower-case letter, a digit or `-`.
pub open spec fn all_shortname_chars(s: Seq<char>) -> bool {
    forall|i: int| 0 <= i < s.len() ==> is_shortname_char(#[trigger] s[i])
}

/// Every character is a letter.
pub open spec fn all_letters(s: Seq<char>) -> bool {
    forall|i: int| 0 <= i < s.len() ==> is_letter(#[trigger] s[i])
}

/// Every character is a decimal digit.
pub open spec fn all_digits(s: Seq<char>) -> bool {
    forall|i: int| 0 <= i < s.len() ==> is_digit(#[trigger] s[i])
}

/// Every character is an upper-case letter or a digit.
pub open spec fn all_upper_or_digits(s: Seq<char>) -> bool {
    forall|i: int| 0 <= i < s.len() ==> #[trigger] is_upper(s[i]) || is_digit(s[i])
}

/// Every character may follow the first of a nick.
pub open spec fn all_nick_chars(s: Seq<char>) -> bool {
    forall|i: int| 0 <= i < s.len() ==> is_nick_char(#[trigger] s[i])
}

/// shortname = (lower/digit) *(lower/digit/"-"), at most 63 bytes, not ending in "-".
pub open spec fn spec_valid_shortname(s: Seq<char>) -> bool {
    &&& s.len() > 0
    &&& blen(s) <= MAX_SHORTNAME_SIZE
    &&& s[0] != '-'
    &&& s.last() != '-'
    &&& all_shortname_chars(s)
}

/// hostname = shortname *("." shortname), at most 253 bytes.
pub open spec fn spec_valid_hostname(s: Seq<char>) -> bool {
    &&& s.len() > 0
    &&& blen(s) <= MAX_HOSTNAME_SIZE
    &&& forall|i: int|
        0 <= i < split(s, '.').len() ==> spec_valid_shortname(#[trigger] split(s, '.')[i])
}

/// A dotted-decimal octet: 1 to 3 digits, no leading zero, at most 255.
pub open spec fn is_octet(p: Seq<char>) -> bool {
    &&& 1 <= p.len() <= 3
    &&& forall|i: int| 0 <= i < p.len() ==> is_digit(#[trigger] p[i])
    &&& (p.len() == 1 || p[0] != '0')
    &&& digits_value(p) <= 255
}

/// The number that a string of decimal digits denotes.
pub open spec fn digits_value(p: Seq<char>) -> nat
    decreases p.len(),
{
    if p.len() == 0 {
        0
    } else {
        digits_value(p.drop_last()) * 10 + ((p.last() as nat) - ('0' as nat)) as nat
    }
}

/// An IPv4 address in dotted-decimal notation, as `Ipv4Addr`'s parser accepts it.
pub open spec fn spec_valid_ipv4_addr(s: Seq<char>) -> bool {
    &&& split(s, '.').len() == 4
    &&& forall|i: int| 0 <= i < 4 ==> is_octet(#[trigger] split(s, '.')[i])
}

/// A hexadecimal digit, in either case.
pub open spec fn is_hex_digit(c: char) -> bool {
    ('0' <= c && c <= '9') || ('a' <= c && c <= 'f') || ('A' <= c && c <= 'F')
}

/// A group of an IPv6 address: one to four hexadecimal digits.
pub open spec fn is_hex_group(p: Seq<char>) -> bool {
    &&& 1 <= p.len() <= 4
    &&& forall|i: int| 0 <= i < p.len() ==> is_hex_digit(#[trigger] p[i])
}

/// Where the first `::` of `s` at or after `from` starts; -1 when there is none.
pub open spec fn double_colon_from(s: Seq<char>, from: int) -> int
    decreases s.len() - from,
{
    if from < 0 || from + 1 >= s.len() {
        -1
    } else if s[from] == ':' && s[from + 1] == ':' {
        from
    } else {
        double_colon_from(s, from + 1)
    }
}

/// The `:`-separated pieces of one side of a `::`; none when the side is empty.
pub open spec fn v6_pieces(side: Seq<char>) -> Seq<Seq<char>> {
    if side.len() == 0 {
        Seq::empty()
    } else {
        split(side, ':')
    }
}

/// Every piece is a hexadecimal group, except that the last one may be an
/// IPv4 address instead when `v4_last` holds.
pub open spec fn v6_pieces_ok(ps: Seq<Seq<char>>, v4_last: bool) -> bool {
    forall|i: int|
        0 <= i < ps.len() ==> is_hex_group(#[trigger] ps[i]) || (v4_last && i == ps.len() - 1
            && spec_valid_ipv4_addr(ps[i]))
}

/// How many 16-bit groups the pieces stand for: an IPv4 address at the end
/// stands for two.
pub open spec fn v6_group_count(ps: Seq<Seq<char>>) -> int {
    if ps.len() > 0 && spec_valid_ipv4_addr(ps.last()) {
        ps.len() + 1int
    } else {
        ps.len() as int
    }
}

/// An IPv6 address in text, as `Ipv6Addr`'s parser accepts it: without `::`,
/// eight groups of one to four hexadecimal digits separated by `:`, the last
/// two of which may be written as an IPv4 address; with `::` (its first
/// occurrence), which stands for at least one zero group, at most seven
/// groups around it, an IPv4 address only at the very end.
pub open spec fn spec_valid_ipv6_addr(s: Seq<char>) -> bool {
    let k = double_colon_from(s, 0);
    if k < 0 {
        let ps = split(s, ':');
        v6_pieces_ok(ps, true) && v6_group_count(ps) == 8
    } else {
        let head = v6_pieces(s.subrange(0, k));
        let tail = v6_pieces(s.subrange(k + 2, s.len() as int));
        &&& v6_pieces_ok(head, false)
        &&& v6_pieces_ok(tail, true)
        &&& v6_group_count(head) + v6_group_count(tail) <= 7
    }
}

/// A host: an IPv4 address or a hostname.
pub open spec fn spec_valid_host(s: Seq<char>) -> bool {
    spec_valid_ipv4_addr(s) || spec_valid_hostname(s)
}

/// key = ["+"] [vendor "/"] *(letter/digit/"-"), where vendor is a hostname;
/// the key is not empty.
pub open spec fn spec_valid_key(k: Seq<char>) -> bool {
    k.len() > 0 && {
        let body = if k[0] == '+' {
            k.drop_first()
        } else {
            k
        };
        match split_once(body, '/') {
            Some((vendor, key)) => spec_valid_hostname(vendor) && all_key_chars(key),
            None => all_key_chars(body),
        }
    }
}

/// A tag value holds no NUL, CR, LF, space or `;`.
pub open spec fn spec_valid_value(v: Seq<char>) -> bool {
    forall|i: int| 0 <= i < v.len() ==> !is_not_tagval(#[trigger] v[i])
}

/// command = 1*letter / 3digit
pub open spec fn spec_valid_command(s: Seq<char>) -> bool {
    (s.len() > 0 && all_letters(s)) || (blen(s) == 3 && all_digits(s))
}

/// user = 1*(any character but NUL, CR, LF, space and `@`)
pub open spec fn spec_valid_user(s: Seq<char>) -> bool {
    s.len() > 0 && forall|i: int| 0 <= i < s.len() ==> !is_not_user(#[trigger] s[i])
}

/// channelid = 5(upper/digit)
pub open spec fn spec_valid_channelid(s: Seq<char>) -> bool {
    blen(s) == CHANNELID_SIZE && all_upper_or_digits(s)
}

/// chanstring: anything but NUL, BELL, CR, LF, comma, space and colon.
pub open spec fn spec_valid_chanstring(s: Seq<char>) -> bool {
    forall|i: int| 0 <= i < s.len() ==> !is_not_chanstring(#[trigger] s[i])
}

/// One or two non-empty chanstrings separated by a single `:`.
pub open spec fn chanstrings_ok(s: Seq<char>) -> bool {
    match split_once(s, ':') {
        Some((a, b)) => a.len() > 0 && spec_valid_chanstring(a) && b.len() > 0
            && spec_valid_chanstring(b),
        None => s.len() > 0 && spec_valid_chanstring(s),
    }
}

/// channel = ("#" / "+" / "&") chanstring [":" chanstring]
///         / "!" channelid chanstring [":" chanstring],
/// between 2 and 50 bytes.
pub open spec fn spec_valid_channel(s: Seq<char>) -> bool {
    &&& 2 <= blen(s) <= MAX_CHANNAME_SIZE
    &&& s.len() > 0
    &&& {
        let rest = s.drop_first();
        if s[0] == '&' || s[0] == '+' || s[0] == '#' {
            chanstrings_ok(rest)
        } else if s[0] == '!' && blen(rest) > CHANNELID_SIZE {
            spec_valid_channelid(take_upto(rest, 5)) && chanstrings_ok(skip_upto(rest, 5))
        } else {
            false
        }
    }
}

/// nick = (letter/special) *8(letter/digit/special/"-"), at most 9 bytes.
pub open spec fn spec_valid_nick(s: Seq<char>) -> bool {
    &&& s.len() > 0
    &&& blen(s) <= MAX_NICKNAME_SIZE
    &&& is_nick_first_char(s[0])
    &&& all_nick_chars(s.drop_first())
}

// ---------------------------------------------------------------------------
// characters that the grammar keeps out

/// A valid hostname holds no character that is neither a shortname
/// character nor `.`.
pub proof fn lemma_hostname_lacks(h: Seq<char>, x: char)
    requires
        spec_valid_hostname(h),
        !is_shortname_char(x),
        x != '.',
    ensures
        !h.contains(x),
{
    assert forall|i: int| 0 <= i < split(h, '.').len() implies !(#[trigger] split(
        h,
        '.',
    )[i]).contains(x) by {
        let p = split(h, '.')[i];
        assert(spec_valid_shortname(p));
        if p.contains(x) {
            let k = choose|k: int| 0 <= k < p.len() && p[k] == x;
            assert(is_shortname_char(p[k]));
        }
    }
    lemma_split_no_char(h, '.', x);
}

/// A valid IPv4 address holds nothing but digits and dots.
pub proof fn lemma_ipv4_lacks(h: Seq<char>, x: char)
    requires
        spec_valid_ipv4_addr(h),
        !is_digit(x),
        x != '.',
    ensures
        !h.contains(x),
{
    assert forall|i: int| 0 <= i < split(h, '.').len() implies !(#[trigger] split(
        h,
        '.',
    )[i]).contains(x) by {
        let p = split(h, '.')[i];
        assert(is_octet(p));
        if p.contains(x) {
            let k = choose|k: int| 0 <= k < p.len() && p[k] == x;
            assert(is_digit(p[k]));
        }
    }
    lemma_split_no_char(h, '.', x);
}

/// A valid host holds no character that is neither a shortname character
/// nor `.`.
pub proof fn lemma_host_lacks(h: Seq<char>, x: char)
    requires
        spec_valid_host(h),
        !is_shortname_char(x),
        x != '.',
    ensures
        !h.contains(x),
{
    if spec_valid_ipv4_addr(h) {
        lemma_ipv4_lacks(h, x);
    } else {
        lemma_hostname_lacks(h, x);
    }
}

/// A valid nick holds neither `@` nor `!`.
pub proof fn lemma_nick_lacks(n: Seq<char>)
    requires
        spec_valid_nick(n),
    ensures
        !n.contains('@'),
        !n.contains('!'),
{
    assert forall|x: char| x == '@' || x == '!' implies !n.contains(x) by {
        if n.contains(x) {
            let k = choose|k: int| 0 <= k < n.len() && n[k] == x;
            if k == 0 {
                assert(is_nick_first_char(n[0]));
            } else {
                assert(n.drop_first()[k - 1] == x);
                assert(is_nick_char(n.drop_first()[k - 1]));
            }
        }
    }
}

/// A valid user holds no `@`.
pub proof fn lemma_user_lacks(u: Seq<char>)
    requires
        spec_valid_user(u),
    ensures
        !u.contains('@'),
{
    if u.contains('@') {
        let k = choose|k: int| 0 <= k < u.len() && u[k] == '@';
        assert(!is_not_user(u[k]));
    }
}

// ---------------------------------------------------------------------------
// the grammar, executable


// ---------------------------------------------------------------------------
// from a set of characters to the class it stands for

proof fn bridge_key(s: Seq<char>, set: Seq<char>)
    requires
        forall|c: char| set.contains(c) <==> #[trigger] is_key_char(c),
    ensures
        all_in(s, set) == all_key_chars(s),
{
    if all_in(s, set) {
        assert forall|i: int| 0 <= i < s.len() implies is_key_char(#[trigger] s[i]) by {
            assert(set.contains(s[i]));
        }
    } else {
        let k = choose|k: int| 0 <= k < s.len() && !set.contains(#[trigger] s[k]);
        assert(!is_key_char(s[k]));
    }
}

proof fn bridge_shortname(s: Seq<char>, set: Seq<char>)
    requires
        forall|c: char| set.contains(c) <==> #[trigger] is_shortname_char(c),
    ensures
        all_in(s, set) == all_shortname_chars(s),
{
    if all_in(s, set) {
        assert forall|i: int| 0 <= i < s.len() implies is_shortname_char(#[trigger] s[i]) by {
            assert(set.contains(s[i]));
        }
    } else {
        let k = choose|k: int| 0 <= k < s.len() && !set.contains(#[trigger] s[k]);
        assert(!is_shortname_char(s[k]));
    }
}

proof fn bridge_letters(s: Seq<char>)
    ensures
        all_in(s, LETTER@) == all_letters(s),
{
    if all_in(s, LETTER@) {
        assert forall|i: int| 0 <= i < s.len() implies is_letter(#[trigger] s[i]) by {
            assert(LETTER@.contains(s[i]));
            lemma_letter_set(s[i]);
        }
    } else {
        let k = choose|k: int| 0 <= k < s.len() && !LETTER@.contains(#[trigger] s[k]);
        lemma_letter_set(s[k]);
    }
}

proof fn bridge_digits(s: Seq<char>)
    ensures
        all_in(s, DIGIT@) == all_digits(s),
{
    if all_in(s, DIGIT@) {
        assert forall|i: int| 0 <= i < s.len() implies is_digit(#[trigger] s[i]) by {
            assert(DIGIT@.contains(s[i]));
            lemma_digit_set(s[i]);
        }
    } else {
        let k = choose|k: int| 0 <= k < s.len() && !DIGIT@.contains(#[trigger] s[k]);
        lemma_digit_set(s[k]);
    }
}

proof fn bridge_upper_digits(s: Seq<char>, set: Seq<char>)
    requires
        forall|c: char| set.contains(c) <==> #[trigger] is_upper(c) || is_digit(c),
    ensures
        all_in(s, set) == all_upper_or_digits(s),
{
    if all_in(s, set) {
        assert forall|i: int| 0 <= i < s.len() implies #[trigger] is_upper(s[i]) || is_digit(
            s[i],
        ) by {
            assert(set.contains(s[i]));
        }
    } else {
        let k = choose|k: int| 0 <= k < s.len() && !set.contains(#[trigger] s[k]);
        assert(!(is_upper(s[k]) || is_digit(s[k])));
    }
}

proof fn bridge_nick(s: Seq<char>, set: Seq<char>)
    requires
        forall|c: char| set.contains(c) <==> #[trigger] is_nick_char(c),
    ensures
        all_in(s, set) == all_nick_chars(s),
{
    if all_in(s, set) {
        assert forall|i: int| 0 <= i < s.len() implies is_nick_char(#[trigger] s[i]) by {
            assert(set.contains(s[i]));
        }
    } else {
        let k = choose|k: int| 0 <= k < s.len() && !set.contains(#[trigger] s[k]);
        assert(!is_nick_char(s[k]));
    }
}

proof fn bridge_tagval(s: Seq<char>)
    ensures
        any_in(s, NOT_TAGVAL@) == !spec_valid_value(s),
{
    if any_in(s, NOT_TAGVAL@) {
        let k = choose|k: int| 0 <= k < s.len() && NOT_TAGVAL@.contains(#[trigger] s[k]);
        lemma_not_tagval_set(s[k]);
    } else {
        assert forall|i: int| 0 <= i < s.len() implies !is_not_tagval(#[trigger] s[i]) by {
            lemma_not_tagval_set(s[i]);
        }
    }
}

proof fn bridge_user(s: Seq<char>)
    ensures
        any_in(s, NOT_USER@) == !(forall|i: int| 0 <= i < s.len() ==> !is_not_user(#[trigger] s[i])),
{
    if any_in(s, NOT_USER@) {
        let k = choose|k: int| 0 <= k < s.len() && NOT_USER@.contains(#[trigger] s[k]);
        lemma_not_user_set(s[k]);
    } else {
        assert forall|i: int| 0 <= i < s.len() implies !is_not_user(#[trigger] s[i]) by {
            lemma_not_user_set(s[i]);
        }
    }
}

proof fn bridge_chanstring(s: Seq<char>)
    ensures
        any_in(s, NOT_CHANSTRING@) == !spec_valid_chanstring(s),
{
    if any_in(s, NOT_CHANSTRING@) {
        let k = choose|k: int| 0 <= k < s.len() && NOT_CHANSTRING@.contains(#[trigger] s[k]);
        lemma_not_chanstring_set(s[k]);
    } else {
        assert forall|i: int| 0 <= i < s.len() implies !is_not_chanstring(#[trigger] s[i]) by {
            lemma_not_chanstring_set(s[i]);
        }
    }
}

// ---------------------------------------------------------------------------
// the grammar, executable

/// Whether every character of `msg` is in `allowed`.
pub fn matches_allowed(msg: &str, allowed: &str) -> (res: bool)
    ensures
        res == all_in(msg@, allowed@),
{
    let n = msg.unicode_len();
    let m = allowed.unicode_len();
    let mut i: usize = 0;
    while i < n
        invariant
            n == msg@.len(),
            m == allowed@.len(),
            i <= n,
            forall|k: int| 0 <= k < i ==> allowed@.contains(#[trigger] msg@[k]),
        decreases n - i,
    {
        let c = msg.get_char(i);
        if !contains_char(allowed, m, c) {
            return false;
        }
        i += 1;
    }
    true
}

/// Whether some character of `msg` is in `disallowed`.
pub fn matches_disallowed(msg: &str, disallowed: &str) -> (res: bool)
    ensures
        res == any_in(msg@, disallowed@),
{
    let n = msg.unicode_len();
    let m = disallowed.unicode_len();
    let mut i: usize = 0;
    while i < n
        invariant
            n == msg@.len(),
            m == disallowed@.len(),
            i <= n,
            forall|k: int| 0 <= k < i ==> !disallowed@.contains(#[trigger] msg@[k]),
        decreases n - i,
    {
        let c = msg.get_char(i);
        if contains_char(disallowed, m, c) {
            return true;
        }
        i += 1;
    }
    false
}

fn contains_char(set: &str, m: usize, c: char) -> (res: bool)
    requires
        m == set@.len(),
    ensures
        res == set@.contains(c),
{
    let mut j: usize = 0;
    while j < m
        invariant
            m == set@.len(),
            j <= m,
            forall|k: int| 0 <= k < j ==> set@[k] != c,
        decreases m - j,
    {
        if set.get_char(j) == c {
            return true;
        }
        j += 1;
    }
    false
}

/// Length in bytes of `s`.
pub fn byte_len(s: &str) -> (n: usize)
    ensures
        n == blen(s@),
{
    s.as_bytes().len()
}

/// The set of letters, digits and `-`.
fn key_chars() -> (res: String)
    ensures
        forall|c: char| res@.contains(c) <==> #[trigger] is_key_char(c),
{
    let mut allowed = String::new();
    allowed.append(LETTER);
    allowed.append(DIGIT);
    allowed.append("-");
    proof {
        assert forall|c: char| allowed@.contains(c) <==> #[trigger] is_key_char(c) by {
            lemma_contains_concat(LETTER@, DIGIT@, c);
            lemma_contains_concat(LETTER@ + DIGIT@, "-"@, c);
            assert(allowed@ =~= LETTER@ + DIGIT@ + "-"@);
            lemma_letter_set(c);
            lemma_digit_set(c);
            lemma_dash_set(c);
        }
    }
    allowed
}

/// Whether `tag_key` is a valid IRCv3 tag key.
pub fn valid_key(tag_key: &str) -> (res: bool)
    ensures
        res == spec_valid_key(tag_key@),
{
    let allowed = key_chars();
    let n = tag_key.unicode_len();
    if n == 0 {
        return false;
    }
    let body = if tag_key.get_char(0) == '+' {
        tag_key.substring_char(1, n)
    } else {
        tag_key
    };
    proof {
        if tag_key@[0] == '+' {
            assert(body@ =~= tag_key@.drop_first());
        }
    }
    match split_once_char(body, '/') {
        Some((vendor, key)) => {
            proof {
                bridge_key(key@, allowed@);
            }
            if !valid_hostname(vendor) || !matches_allowed(key, allowed.as_str()) {
                false
            } else {
                true
            }
        },
        None => {
            proof {
                bridge_key(body@, allowed@);
            }
            matches_allowed(body, allowed.as_str())
        },
    }
}

/// Whether `val` is a valid tag value.
pub fn valid_value(val: &str) -> (res: bool)
    ensures
        res == spec_valid_value(val@),
{
    proof {
        bridge_tagval(val@);
    }
    !matches_disallowed(val, NOT_TAGVAL)
}

/// Whether `hostname` is a valid hostname.
pub fn valid_hostname(hostname: &str) -> (res: bool)
    ensures
        res == spec_valid_hostname(hostname@),
{
    if hostname.is_empty() || byte_len(hostname) > MAX_HOSTNAME_SIZE {
        return false;
    }
    let toks = split_char(hostname, '.');
    let ghost parts = split(hostname@, '.');
    assert(toks@.len() == parts.len());
    let mut i: usize = 0;
    while i < toks.len()
        invariant
            views(toks@) == parts,
            toks@.len() == parts.len(),
            parts == split(hostname@, '.'),
            i <= toks.len(),
            forall|k: int| 0 <= k < i ==> spec_valid_shortname(#[trigger] parts[k]),
        decreases toks.len() - i,
    {
        let item = toks[i];
        assert(item@ == parts[i as int]);
        if item.is_empty() || !valid_shortname(item) {
            return false;
        }
        i += 1;
    }
    true
}

/// Whether `host_addr` is an IPv4 address in dotted-decimal notation: four
/// decimal octets of at most three digits, none above 255 and none with a
/// leading zero.
pub fn valid_ipv4_addr(host_addr: &str) -> (res: bool)
    ensures
        res == spec_valid_ipv4_addr(host_addr@),
{
    let parts = split_char(host_addr, '.');
    let ghost ps = split(host_addr@, '.');
    assert(parts@.len() == ps.len());
    if parts.len() != 4 {
        return false;
    }
    let mut i: usize = 0;
    while i < 4
        invariant
            views(parts@) == ps,
            ps == split(host_addr@, '.'),
            parts.len() == 4,
            i <= 4,
            forall|k: int| 0 <= k < i ==> is_octet(#[trigger] ps[k]),
        decreases 4 - i,
    {
        let p = parts[i];
        assert(p@ == ps[i as int]);
        if !octet(p) {
            return false;
        }
        i += 1;
    }
    true
}

fn octet(p: &str) -> (res: bool)
    ensures
        res == is_octet(p@),
{
    let n = p.unicode_len();
    if n == 0 || n > 3 {
        return false;
    }
    let mut value: u32 = 0;
    let mut i: usize = 0;
    while i < n
        invariant
            n == p@.len(),
            1 <= n <= 3,
            i <= n,
            forall|k: int| 0 <= k < i ==> is_digit(#[trigger] p@[k]),
            value == digits_value(p@.subrange(0, i as int)),
            value < 1000,
        decreases n - i,
    {
        let c = p.get_char(i);
        if !('0' <= c && c <= '9') {
            return false;
        }
        proof {
            let s = p@.subrange(0, i as int + 1);
            assert(s.drop_last() =~= p@.subrange(0, i as int));
            assert(s.last() == c);
            lemma_digits_bound(p@.subrange(0, i as int));
            assert(i < 3);
            assert(digits_value(p@.subrange(0, i as int)) < 100);
        }
        value = value * 10 + ((c as u32) - ('0' as u32));
        i += 1;
        proof {
            lemma_digits_bound(p@.subrange(0, i as int));
        }
    }
    assert(p@.subrange(0, n as int) =~= p@);
    if n > 1 && p.get_char(0) == '0' {
        return false;
    }
    value <= 255
}

proof fn lemma_digits_bound(p: Seq<char>)
    requires
        forall|k: int| 0 <= k < p.len() ==> is_digit(#[trigger] p[k]),
    ensures
        p.len() <= 1 ==> digits_value(p) < 10,
        p.len() <= 2 ==> digits_value(p) < 100,
        p.len() <= 3 ==> digits_value(p) < 1000,
    decreases p.len(),
{
    if p.len() > 0 {
        assert forall|k: int| 0 <= k < p.drop_last().len() implies is_digit(
            #[trigger] p.drop_last()[k],
        ) by {
            assert(p.drop_last()[k] == p[k]);
        }
        lemma_digits_bound(p.drop_last());
        assert(is_digit(p[p.len() - 1]));
    }
}

fn hex_group(p: &str) -> (res: bool)
    ensures
        res == is_hex_group(p@),
{
    let n = p.unicode_len();
    if n == 0 || n > 4 {
        return false;
    }
    let mut i: usize = 0;
    while i < n
        invariant
            n == p@.len(),
            i <= n,
            forall|k: int| 0 <= k < i ==> is_hex_digit(#[trigger] p@[k]),
        decreases n - i,
    {
        let c = p.get_char(i);
        if !(('0' <= c && c <= '9') || ('a' <= c && c <= 'f') || ('A' <= c && c <= 'F')) {
            return false;
        }
        i += 1;
    }
    true
}

/// Where the first `::` of `s` starts.
fn first_double_colon(s: &str) -> (res: Option<usize>)
    ensures
        match res {
            Some(k) => double_colon_from(s@, 0) == k && k + 1 < s@.len(),
            None => double_colon_from(s@, 0) < 0,
        },
{
    let n = s.unicode_len();
    let mut k: usize = 0;
    while n > 1 && k < n - 1
        invariant
            n == s@.len(),
            k <= n,
            double_colon_from(s@, 0) == double_colon_from(s@, k as int),
        decreases n - k,
    {
        if s.get_char(k) == ':' && s.get_char(k + 1) == ':' {
            return Some(k);
        }
        k += 1;
    }
    None
}

/// The groups that the pieces of one side stand for, when they are well
/// formed (see `v6_pieces_ok`).
fn v6_side(ps: &Vec<&str>, v4_last: bool) -> (res: Option<usize>)
    requires
        ps@.len() <= 8,
    ensures
        match res {
            Some(c) => v6_pieces_ok(views(ps@), v4_last) && c == v6_group_count(views(ps@)),
            None => !v6_pieces_ok(views(ps@), v4_last),
        },
{
    let n = ps.len();
    let ghost vs = views(ps@);
    let mut i: usize = 0;
    while i < n
        invariant
            n == ps@.len(),
            vs == views(ps@),
            i <= n,
            forall|k: int|
                0 <= k < i ==> is_hex_group(#[trigger] vs[k]) || (v4_last && k == n - 1
                    && spec_valid_ipv4_addr(vs[k])),
        decreases n - i,
    {
        let p = ps[i];
        assert(vs[i as int] == p@);
        if !hex_group(p) && !(v4_last && i + 1 == n && valid_ipv4_addr(p)) {
            assert(!(is_hex_group(vs[i as int]) || (v4_last && i == n - 1 && spec_valid_ipv4_addr(
                vs[i as int],
            ))));
            return None;
        }
        i += 1;
    }
    if n > 0 && valid_ipv4_addr(ps[n - 1]) {
        assert(vs.last() == ps@[n - 1]@);
        Some(n + 1)
    } else {
        proof {
            if n > 0 {
                assert(vs.last() == ps@[n - 1]@);
            }
        }
        Some(n)
    }
}

/// The `:`-separated pieces of one side of a `::`.
fn v6_side_pieces<'a>(side: &'a str) -> (res: Vec<&'a str>)
    ensures
        views(res@) == v6_pieces(side@),
{
    if side.unicode_len() == 0 {
        let v: Vec<&'a str> = Vec::new();
        assert(views(v@) =~= Seq::<Seq<char>>::empty());
        v
    } else {
        split_char(side, ':')
    }
}

/// Whether `host_addr` is an IPv6 address in text (see `spec_valid_ipv6_addr`).
pub fn valid_ipv6_addr(host_addr: &str) -> (res: bool)
    ensures
        res == spec_valid_ipv6_addr(host_addr@),
{
    match first_double_colon(host_addr) {
        None => {
            let ps = split_char(host_addr, ':');
            if ps.len() > 8 {
                return false;
            }
            match v6_side(&ps, true) {
                Some(c) => c == 8,
                None => false,
            }
        },
        Some(k) => {
            let n = host_addr.unicode_len();
            let head = v6_side_pieces(host_addr.substring_char(0, k));
            let tail = v6_side_pieces(host_addr.substring_char(k + 2, n));
            if head.len() > 7 || tail.len() > 7 {
                return false;
            }
            match (v6_side(&head, false), v6_side(&tail, true)) {
                (Some(a), Some(b)) => a + b <= 7,
                _ => false,
            }
        },
    }
}

/// Whether `host` is a valid host (an IPv4 address or a hostname).
pub fn valid_host(host: &str) -> (res: bool)
    ensures
        res == spec_valid_host(host@),
{
    valid_ipv4_addr(host) || valid_ipv4_addr(host) || valid_hostname(host)
}

/// Whether `shortname` is a valid shortname.
pub fn valid_shortname(shortname: &str) -> (res: bool)
    ensures
        res == spec_valid_shortname(shortname@),
{
    let n = shortname.unicode_len();
    if n == 0 || byte_len(shortname) > MAX_SHORTNAME_SIZE || shortname.get_char(0) == '-'
        || shortname.get_char(n - 1) == '-' {
        return false;
    }
    let mut allowed = String::new();
    allowed.append(LOWER);
    allowed.append(DIGIT);
    allowed.append("-");
    proof {
        assert forall|c: char| allowed@.contains(c) <==> #[trigger] is_shortname_char(c) by {
            lemma_contains_concat(LOWER@, DIGIT@, c);
            lemma_contains_concat(LOWER@ + DIGIT@, "-"@, c);
            assert(allowed@ =~= LOWER@ + DIGIT@ + "-"@);
            lemma_lower_set(c);
            lemma_digit_set(c);
            lemma_dash_set(c);
        }
        bridge_shortname(shortname@, allowed@);
    }
    matches_allowed(shortname, allowed.as_str())
}

/// Whether `cmd_string` is a valid command: letters only, or three digits.
pub fn valid_command(cmd_string: &str) -> (res: bool)
    ensures
        res == spec_valid_command(cmd_string@),
{
    proof {
        bridge_letters(cmd_string@);
        bridge_digits(cmd_string@);
    }
    if !cmd_string.is_empty() && matches_allowed(cmd_string, LETTER) {
        true
    } else {
        byte_len(cmd_string) == 3 && matches_allowed(cmd_string, DIGIT)
    }
}

/// Whether `username` is a valid user string.
pub fn valid_user(username: &str) -> (res: bool)
    ensures
        res == spec_valid_user(username@),
{
    proof {
        bridge_user(username@);
    }
    if !username.is_empty() {
        !matches_disallowed(username, NOT_USER)
    } else {
        false
    }
}

/// Whether `channame` is a valid channel name.
pub fn valid_channel(channame: &str) -> (res: bool)
    ensures
        res == spec_valid_channel(channame@),
{
    if byte_len(channame) < 2 || byte_len(channame) > MAX_CHANNAME_SIZE {
        return false;
    }
    let n = channame.unicode_len();
    if n == 0 {
        return false;
    }
    let first_char = channame.get_char(0);
    let mut chanstring = channame.substring_char(1, n);
    assert(chanstring@ =~= channame@.drop_first());
    if first_char == '&' || first_char == '+' || first_char == '#' {
    } else if first_char == '!' && byte_len(chanstring) > 5 {
        let m = chanstring.unicode_len();
        let cut = if m < 5 {
            m
        } else {
            5
        };
        let channelid = chanstring.substring_char(0, cut);
        let tail = chanstring.substring_char(cut, m);
        assert(channelid@ =~= take_upto(channame@.drop_first(), 5));
        assert(tail@ =~= skip_upto(channame@.drop_first(), 5));
        chanstring = tail;
        if !valid_channelid(channelid) {
            return false;
        }
    } else {
        return false;
    }
    valid_chanstrings(chanstring)
}

/// At most two chanstrings, split at the first `:`, each non-empty and valid.
fn valid_chanstrings(chanstring: &str) -> (res: bool)
    ensures
        res == chanstrings_ok(chanstring@),
{
    match split_once_char(chanstring, ':') {
        Some((a, b)) => {
            if a.is_empty() || !valid_chanstring(a) {
                return false;
            }
            if b.is_empty() || !valid_chanstring(b) {
                return false;
            }
            true
        },
        None => !chanstring.is_empty() && valid_chanstring(chanstring),
    }
}

/// Whether `channelid` is five upper-case letters or digits.
pub fn valid_channelid(channelid: &str) -> (res: bool)
    ensures
        res == spec_valid_channelid(channelid@),
{
    if byte_len(channelid) != CHANNELID_SIZE {
        return false;
    }
    let mut allowed = String::new();
    allowed.append(UPPER);
    allowed.append(DIGIT);
    proof {
        assert forall|c: char| allowed@.contains(c) <==> #[trigger] is_upper(c) || is_digit(c) by {
            lemma_contains_concat(UPPER@, DIGIT@, c);
            assert(allowed@ =~= UPPER@ + DIGIT@);
            lemma_upper_set(c);
            lemma_digit_set(c);
        }
        bridge_upper_digits(channelid@, allowed@);
    }
    matches_allowed(channelid, allowed.as_str())
}

/// Whether `chanstring` holds none of NUL, BELL, CR, LF, comma, space, colon.
pub fn valid_chanstring(chanstring: &str) -> (res: bool)
    ensures
        res == spec_valid_chanstring(chanstring@),
{
    proof {
        bridge_chanstring(chanstring@);
    }
    !matches_disallowed(chanstring, NOT_CHANSTRING)
}

/// Whether `nick` is a valid nickname.
pub fn valid_nick(nick: &str) -> (res: bool)
    ensures
        res == spec_valid_nick(nick@),
{
    if byte_len(nick) > MAX_NICKNAME_SIZE || nick.is_empty() {
        return false;
    }
    let mut allowed = String::new();
    allowed.append(LETTER);
    allowed.append(SPECIAL);
    proof {
        assert forall|c: char| allowed@.contains(c) <==> #[trigger] is_nick_first_char(c) by {
            lemma_contains_concat(LETTER@, SPECIAL@, c);
            assert(allowed@ =~= LETTER@ + SPECIAL@);
            lemma_letter_set(c);
            lemma_special_set(c);
        }
    }
    let n = nick.unicode_len();
    let first = nick.substring_char(0, 1);
    assert(first@[0] == nick@[0]);
    if !matches_allowed(first, allowed.as_str()) {
        return false;
    }
    let rest = nick.substring_char(1, n);
    assert(rest@ =~= nick@.drop_first());
    if rest.is_empty() {
        return true;
    }
    let ghost first_allowed = allowed@;
    allowed.append(DIGIT);
    allowed.append("-");
    proof {
        assert forall|c: char| allowed@.contains(c) <==> #[trigger] is_nick_char(c) by {
            lemma_contains_concat(first_allowed, DIGIT@, c);
            lemma_contains_concat(first_allowed + DIGIT@, "-"@, c);
            assert(allowed@ =~= first_allowed + DIGIT@ + "-"@);
            assert(first_allowed.contains(c) <==> is_nick_first_char(c));
            lemma_digit_set(c);
            lemma_dash_set(c);
        }
        bridge_nick(rest@, allowed@);
    }
    matches_allowed(rest, allowed.as_str())
}

} // verus!
