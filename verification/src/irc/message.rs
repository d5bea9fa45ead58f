//! Reading a whole protocol line:
//! `['@' tags SPACE] [':' prefix SPACE] command *(SPACE param)`.
use crate::irc::error::{Error, ErrorView};
use crate::irc::rfc_defs::{
    byte_len, spec_valid_host, spec_valid_nick, spec_valid_user, valid_host, valid_nick,
    valid_user, MAX_MSG_PARAMS, MAX_MSG_SIZE, MAX_TAGS_SIZE,
};
use crate::irc::tags::{self, spec_parse_tags, TagList, Tags};
use crate::irc::reply::join;
use crate::text::{blen, find_char, index_of, lemma_index_of, lemma_split_first, split, split_char, split_once, split_once_char, views};
use vstd::prelude::*;
use vstd::string::*;

verus! {

/// The parts of a line: tags, the words of the prefix, the command and the
/// parameters.
pub type MessageParts = (Option<TagList>, Option<Seq<Seq<char>>>, Seq<char>, Seq<Seq<char>>);

/// `s` split at its first `c`, or `s` and an empty string.
pub open spec fn spec_split_once_infallible(s: Seq<char>, c: char) -> (Seq<char>, Seq<char>) {
    match split_once(s, c) {
        Some(p) => p,
        None => (s, Seq::empty()),
    }
}

/// The tags of a tag string, or `None` when it is longer than the tag limit.
pub open spec fn spec_message_tags(ts: Seq<char>) -> Option<TagList> {
    if blen(ts) > MAX_TAGS_SIZE {
        None
    } else {
        Some(spec_parse_tags(ts))
    }
}

/// The words of a prefix: `[nick, user, host]`, `[nick, host]` or `[name]`.
pub open spec fn prefix_words(s: Seq<char>) -> Seq<Seq<char>> {
    match split_once(s, '@') {
        Some((nick, host)) => match split_once(nick, '!') {
            Some((n, u)) => seq![n, u, host],
            None => seq![nick, host],
        },
        None => seq![s],
    }
}

/// A host or a nick; a nick and a host; or a nick, a user and a host.
pub open spec fn spec_validate_prefix(p: Seq<Seq<char>>) -> bool {
    if p.len() == 1 {
        spec_valid_host(p[0]) || spec_valid_nick(p[0])
    } else if p.len() == 2 {
        spec_valid_nick(p[0]) && spec_valid_host(p[1])
    } else if p.len() == 3 {
        spec_valid_nick(p[0]) && spec_valid_user(p[1]) && spec_valid_host(p[2])
    } else {
        false
    }
}

/// A user word that holds a further `!` (as in `nick!us!er@host`), which
/// leaves open where the nick ends.
pub open spec fn ambiguous_user(p: Seq<Seq<char>>) -> bool {
    p.len() == 3 && p[1].contains('!')
}

/// The words of a prefix when they are valid and tell the nick from the user
/// without doubt.
pub open spec fn spec_parse_prefix_words(s: Seq<char>) -> Option<Seq<Seq<char>>> {
    if spec_validate_prefix(prefix_words(s)) && !ambiguous_user(prefix_words(s)) {
        Some(prefix_words(s))
    } else {
        None
    }
}

/// The total byte length of some words.
pub open spec fn sum_blen(ts: Seq<Seq<char>>) -> nat
    decreases ts.len(),
{
    if ts.len() == 0 {
        0
    } else {
        sum_blen(ts.drop_last()) + blen(ts.last())
    }
}

/// The parameters among the words from position `i` on: each word up to the
/// first that starts with `:`; the parameter at position
/// `MAX_MSG_PARAMS - 1` (the last one allowed) takes the rest of the line,
/// its words joined by single spaces. `None` when an empty word is examined
/// first (a space doubled), on which the reader has no first character to
/// look at.
pub open spec fn param_words(ts: Seq<Seq<char>>, i: int) -> Option<Seq<Seq<char>>>
    decreases ts.len() - i,
{
    if i < 0 || i >= ts.len() {
        Some(Seq::empty())
    } else if ts[i].len() == 0 {
        None
    } else if ts[i][0] == ':' {
        Some(Seq::empty())
    } else if i >= MAX_MSG_PARAMS - 1 {
        Some(seq![join(ts.subrange(i, ts.len() as int), seq![' '])])
    } else {
        match param_words(ts, i + 1) {
            Some(r) => Some(seq![ts[i]] + r),
            None => None,
        }
    }
}

/// The command word and its parameters.
pub open spec fn message_command(
    tags: Option<TagList>,
    prefix: Option<Seq<Seq<char>>>,
    toks: Seq<Seq<char>>,
) -> Option<Result<MessageParts, ()>> {
    if toks.len() == 0 {
        Some(Err(()))
    } else {
        match param_words(toks.drop_first(), 0) {
            Some(ps) => Some(Ok((tags, prefix, toks[0], ps))),
            None => None,
        }
    }
}

/// What follows the tags: the length check, the prefix, the command.
pub open spec fn message_after_tags(
    tags: Option<TagList>,
    toks: Seq<Seq<char>>,
    first: char,
) -> Option<Result<MessageParts, ()>> {
    if sum_blen(toks) > MAX_MSG_SIZE {
        Some(Err(()))
    } else if first == ':' {
        match spec_parse_prefix_words(toks[0].drop_first()) {
            None => Some(Err(())),
            Some(p) => message_command(tags, Some(p), toks.drop_first()),
        }
    } else {
        message_command(tags, None, toks)
    }
}

/// What `parse_message` gives for a line: `Some(Ok(parts))`, `Some(Err(()))`
/// for a parse error, or `None` on the lines that it cannot read (an empty
/// line, a tag word with nothing after it, an empty word where a first
/// character is looked at).
pub open spec fn spec_parse_message(s: Seq<char>) -> Option<Result<MessageParts, ()>> {
    if s.len() == 0 {
        None
    } else {
        let toks = split(s, ' ');
        if s[0] == '@' {
            if toks.len() < 2 || toks[1].len() == 0 {
                None
            } else {
                match spec_message_tags(toks[0].drop_first()) {
                    None => Some(Err(())),
                    Some(t) => message_after_tags(Some(t), toks.drop_first(), toks[1][0]),
                }
            }
        } else {
            message_after_tags(None, toks, s[0])
        }
    }
}

/// The tag list of optional tags.
pub open spec fn opt_tags_view(t: Option<Tags>) -> Option<TagList> {
    match t {
        Some(t) => Some(t@),
        None => None,
    }
}

/// The words of optional prefix words.
pub open spec fn opt_words_view<'a>(p: Option<Vec<&'a str>>) -> Option<Seq<Seq<char>>> {
    match p {
        Some(v) => Some(views(v@)),
        None => None,
    }
}

/// `s` split at its first `c`, or `s` and an empty string.
pub fn split_once_infallible(s: &str, c: char) -> (res: (String, String))
    ensures
        (res.0@, res.1@) == spec_split_once_infallible(s@, c),
{
    match split_once_char(s, c) {
        Some((l, r)) => (l.to_owned(), r.to_owned()),
        None => (s.to_owned(), String::new()),
    }
}

/// Parses a tag string that is at most `MAX_TAGS_SIZE` bytes long.
pub fn parse_tags(ts: &str) -> (res: Result<Tags, Error>)
    ensures
        match res {
            Ok(t) => spec_message_tags(ts@) == Some(t@),
            Err(e) => e@ == ErrorView::ParseError && spec_message_tags(ts@) is None,
        },
{
    if byte_len(ts) > MAX_TAGS_SIZE {
        return Err(Error::ParseError);
    }
    Ok(tags::parse_tags(ts))
}

/// Whether the words of a prefix are valid.
pub fn validate_prefix(p: &[&str]) -> (res: bool)
    ensures
        res == spec_validate_prefix(views(p@)),
{
    let n = p.len();
    proof {
        if n >= 1 {
            assert(views(p@)[0] == p@[0]@);
        }
        if n >= 2 {
            assert(views(p@)[1] == p@[1]@);
        }
        if n >= 3 {
            assert(views(p@)[2] == p@[2]@);
        }
    }
    if n == 1 {
        valid_host(p[0]) || valid_nick(p[0])
    } else if n == 2 {
        valid_nick(p[0]) && valid_host(p[1])
    } else if n == 3 {
        valid_nick(p[0]) && valid_user(p[1]) && valid_host(p[2])
    } else {
        false
    }
}

/// Splits a prefix into its words and checks them; a user word that holds a
/// further `!` is refused.
pub fn parse_prefix<'a>(s: &'a str) -> (res: Result<Vec<&'a str>, Error>)
    ensures
        match res {
            Ok(p) => spec_parse_prefix_words(s@) == Some(views(p@)),
            Err(e) => e@ == ErrorView::ParseError && spec_parse_prefix_words(s@) is None,
        },
{
    let mut prefix: Vec<&'a str> = Vec::new();
    if let Some((nick, host)) = split_once_char(s, '@') {
        if let Some((n, u)) = split_once_char(nick, '!') {
            prefix.push(n);
            prefix.push(u);
            prefix.push(host);
        } else {
            prefix.push(nick);
            prefix.push(host);
        }
    } else {
        prefix.push(s);
    }
    assert(views(prefix@) =~= prefix_words(s@));
    if !validate_prefix(prefix.as_slice()) {
        return Err(Error::ParseError);
    }
    if prefix.len() == 3 {
        assert(views(prefix@)[1] == prefix@[1]@);
        proof {
            lemma_index_of(prefix@[1]@, '!');
        }
        if find_char(prefix[1], '!').is_some() {
            return Err(Error::ParseError);
        }
    }
    Ok(prefix)
}

/// Whether the total byte length of `toks[from..]` exceeds `limit`.
fn exceeds(toks: &Vec<&str>, from: usize, limit: usize) -> (res: bool)
    requires
        from <= toks@.len(),
    ensures
        res == (sum_blen(views(toks@).subrange(from as int, toks@.len() as int)) > limit),
{
    let ghost all = views(toks@);
    let mut acc: usize = 0;
    let mut i: usize = from;
    assert(all.subrange(from as int, from as int) =~= Seq::<Seq<char>>::empty());
    while i < toks.len()
        invariant
            from <= i <= toks@.len(),
            all == views(toks@),
            all.len() == toks@.len(),
            acc == sum_blen(all.subrange(from as int, i as int)),
            acc <= limit,
        decreases toks@.len() - i,
    {
        let w = byte_len(toks[i]);
        let ghost next = all.subrange(from as int, i as int + 1);
        assert(next.drop_last() =~= all.subrange(from as int, i as int));
        assert(next.last() == toks@[i as int]@);
        if w > limit - acc {
            proof {
                lemma_sum_blen_prefix(all.subrange(from as int, toks@.len() as int), (i + 1 - from) as int);
                assert(all.subrange(from as int, toks@.len() as int).subrange(0, (i + 1 - from) as int) =~= next);
            }
            return true;
        }
        acc = acc + w;
        i += 1;
    }
    false
}

/// The byte length of a prefix of the words is at most that of all of them.
proof fn lemma_sum_blen_prefix(ts: Seq<Seq<char>>, k: int)
    requires
        0 <= k <= ts.len(),
    ensures
        sum_blen(ts.subrange(0, k)) <= sum_blen(ts),
    decreases ts.len(),
{
    if k < ts.len() {
        assert(ts.drop_last().subrange(0, k) =~= ts.subrange(0, k));
        lemma_sum_blen_prefix(ts.drop_last(), k);
    } else {
        assert(ts.subrange(0, k) =~= ts);
    }
}

/// Joining a word in front of at least one more adds it and a separator.
proof fn lemma_join_cons(a: Seq<char>, x: Seq<Seq<char>>, sep: Seq<char>)
    requires
        x.len() >= 1,
    ensures
        join(seq![a] + x, sep) == a + sep + join(x, sep),
    decreases x.len(),
{
    let w = seq![a] + x;
    if x.len() == 1 {
        assert(w.drop_last() =~= seq![a]);
        assert(w.last() == x[0]);
        assert(join(w, sep) == join(seq![a], sep) + sep + x[0]);
        assert(join(x, sep) == x[0]);
        assert(join(seq![a], sep) == a);
    } else {
        assert(w.drop_last() =~= seq![a] + x.drop_last());
        lemma_join_cons(a, x.drop_last(), sep);
        assert(w.last() == x.last());
        assert(join(w, sep) == join(w.drop_last(), sep) + sep + w.last());
        assert(join(x, sep) == join(x.drop_last(), sep) + sep + x.last());
        assert(join(w, sep) =~= a + sep + join(x, sep));
    }
}

/// Joining the pieces of a split with the separator gives the text back.
proof fn lemma_join_split(s: Seq<char>, c: char)
    ensures
        join(split(s, c), seq![c]) == s,
    decreases s.len(),
{
    lemma_index_of(s, c);
    let i = index_of(s, c);
    if i >= 0 {
        let a = s.subrange(0, i);
        let r = s.subrange(i + 1, s.len() as int);
        lemma_join_split(r, c);
        lemma_split_first(r, c);
        lemma_join_cons(a, split(r, c), seq![c]);
        assert(s =~= a + seq![c] + r);
    }
}

/// The text after the first `k` spaces (empty when there are fewer).
pub open spec fn after_spaces(s: Seq<char>, k: nat) -> Seq<char>
    decreases k,
{
    if k == 0 {
        s
    } else {
        match split_once(s, ' ') {
            Some((_, r)) => after_spaces(r, (k - 1) as nat),
            None => Seq::empty(),
        }
    }
}

/// The text after the first `k` spaces is the words from the `k`-th on,
/// joined by spaces.
proof fn lemma_after_spaces(s: Seq<char>, k: nat)
    requires
        k < split(s, ' ').len(),
    ensures
        after_spaces(s, k) == join(
            split(s, ' ').subrange(k as int, split(s, ' ').len() as int),
            seq![' '],
        ),
    decreases k,
{
    lemma_index_of(s, ' ');
    if k == 0 {
        lemma_join_split(s, ' ');
        assert(split(s, ' ').subrange(0, split(s, ' ').len() as int) =~= split(s, ' '));
    } else {
        let i = index_of(s, ' ');
        let r = s.subrange(i + 1, s.len() as int);
        assert(split(s, ' ') == seq![s.subrange(0, i)] + split(r, ' '));
        lemma_after_spaces(r, (k - 1) as nat);
        assert(split(s, ' ').subrange(k as int, split(s, ' ').len() as int) =~= split(r, ' ').subrange(
            k - 1,
            split(r, ' ').len() as int,
        ));
    }
}

/// The text after the first `k` spaces of `s`.
fn skip_spaces<'a>(s: &'a str, k: usize) -> (res: &'a str)
    ensures
        res@ == after_spaces(s@, k as nat),
{
    let mut rest: &'a str = s;
    let mut j: usize = 0;
    while j < k
        invariant
            j <= k,
            after_spaces(rest@, (k - j) as nat) == after_spaces(s@, k as nat),
        decreases k - j,
    {
        match split_once_char(rest, ' ') {
            Some((_, r)) => {
                rest = r;
            },
            None => {
                proof {
                    reveal_strlit("");
                }
                assert(""@ =~= Seq::<char>::empty());
                return "";
            },
        }
        j += 1;
    }
    rest
}

/// Whether `param_words` can read the words `toks[from..]`: no empty word
/// comes before the first that starts with `:` or the last one allowed.
fn params_readable(toks: &Vec<&str>, from: usize) -> (res: bool)
    requires
        from <= toks@.len(),
    ensures
        res == param_words(views(toks@).subrange(from as int, toks@.len() as int), 0) is Some,
{
    let ghost ts = views(toks@).subrange(from as int, toks@.len() as int);
    let mut i: usize = from;
    while i < toks.len()
        invariant
            from <= i <= toks@.len(),
            ts == views(toks@).subrange(from as int, toks@.len() as int),
            ts.len() == toks@.len() - from,
            param_words(ts, 0) is Some == param_words(ts, (i - from) as int) is Some,
        decreases toks@.len() - i,
    {
        let w = toks[i];
        let j = i - from;
        assert(ts[j as int] == w@);
        if w.unicode_len() == 0 {
            return false;
        }
        if w.get_char(0) == ':' || j >= MAX_MSG_PARAMS - 1 {
            return true;
        }
        i += 1;
    }
    true
}

/// Whether `parse_message` can read the line: `spec_parse_message(s@)` is
/// defined (see there).
pub fn parse_message_defined(s: &str) -> (res: bool)
    ensures
        res == spec_parse_message(s@) is Some,
{
    if s.unicode_len() == 0 {
        return false;
    }
    let toks = split_char(s, ' ');
    let ghost all = split(s@, ' ');
    assert(toks@.len() == all.len());
    proof {
        lemma_split_first(s@, ' ');
    }
    let mut first_char = s.get_char(0);
    let mut next: usize = 0;
    if first_char == '@' {
        if toks.len() < 2 || toks[1].unicode_len() == 0 {
            assert(toks.len() >= 2 ==> all[1] == toks@[1]@);
            return false;
        }
        let tag_string = toks[0];
        assert(all[1] == toks@[1]@);
        first_char = toks[1].get_char(0);
        next = 1;
        let body = tag_string.substring_char(1, tag_string.unicode_len());
        assert(body@ =~= all[0].drop_first());
        if parse_tags(body).is_err() {
            return true;
        }
    }
    let ghost rest = all.subrange(next as int, all.len() as int);
    proof {
        if next == 1 {
            assert(rest =~= all.drop_first());
        } else {
            assert(rest =~= all);
        }
        assert(views(toks@).subrange(next as int, toks@.len() as int) =~= rest);
    }
    if exceeds(&toks, next, MAX_MSG_SIZE) {
        return true;
    }
    if first_char == ':' {
        let prefix_string = toks[next];
        assert(prefix_string@ == rest[0]);
        let stripped = prefix_string.substring_char(1, prefix_string.unicode_len());
        assert(stripped@ =~= rest[0].drop_first());
        next = next + 1;
        if parse_prefix(stripped).is_err() {
            return true;
        }
    }
    let ghost after = all.subrange(next as int, all.len() as int);
    proof {
        if first_char == ':' {
            assert(after =~= rest.drop_first());
        } else {
            assert(after =~= rest);
        }
    }
    if next >= toks.len() {
        return true;
    }
    proof {
        assert(views(toks@).subrange(next + 1, toks@.len() as int) =~= after.drop_first());
    }
    params_readable(&toks, next + 1)
}

/// The parameters among `toks[from..]` (see `param_words`).
fn collect_params<'a>(s: &'a str, toks: &Vec<&'a str>, from: usize) -> (res: Vec<&'a str>)
    requires
        views(toks@) == split(s@, ' '),
        from <= toks@.len(),
        param_words(views(toks@).subrange(from as int, toks@.len() as int), 0) is Some,
    ensures
        param_words(views(toks@).subrange(from as int, toks@.len() as int), 0) == Some(
            views(res@),
        ),
{
    let ghost ts = views(toks@).subrange(from as int, toks@.len() as int);
    let mut params: Vec<&'a str> = Vec::new();
    let mut i: usize = from;
    while i < toks.len()
        invariant
            from <= i <= toks@.len(),
            ts == views(toks@).subrange(from as int, toks@.len() as int),
            ts.len() == toks@.len() - from,
            param_words(ts, 0) is Some,
            param_words(ts, 0) == Some(views(params@) + param_words(ts, (i - from) as int)->0),
            param_words(ts, (i - from) as int) is Some,
            views(toks@) == split(s@, ' '),
        decreases toks@.len() - i,
    {
        let w = toks[i];
        let j = i - from;
        assert(ts[j as int] == w@);
        let n = w.unicode_len();
        if n == 0 {
            assert(false);
        }
        if w.get_char(0) == ':' {
            assert(param_words(ts, j as int) == Some(Seq::<Seq<char>>::empty()));
            assert(views(params@) + Seq::<Seq<char>>::empty() =~= views(params@));
            return params;
        }
        if j >= MAX_MSG_PARAMS - 1 {
            let rest = skip_spaces(s, i);
            proof {
                lemma_after_spaces(s@, i as nat);
                assert(split(s@, ' ').subrange(i as int, split(s@, ' ').len() as int) =~= ts.subrange(
                    j as int,
                    ts.len() as int,
                ));
            }
            let ghost before = views(params@);
            params.push(rest);
            assert(views(params@) =~= before + seq![rest@]);
            return params;
        }
        let ghost before = views(params@);
        params.push(w);
        assert(views(params@) =~= before + seq![w@]);
        assert(param_words(ts, j as int)->0 == seq![w@] + param_words(ts, j as int + 1)->0);
        assert(before + (seq![w@] + param_words(ts, j as int + 1)->0) =~= views(params@)
            + param_words(ts, j as int + 1)->0);
        i += 1;
    }
    assert(param_words(ts, (i - from) as int) == Some(Seq::<Seq<char>>::empty()));
    assert(views(params@) + Seq::<Seq<char>>::empty() =~= views(params@));
    params
}

/// Reads a protocol line into its tags, prefix words, command and
/// parameters (see `spec_parse_message`).
pub fn parse_message<'a>(s: &'a str) -> (res: Result<
    (Option<Tags>, Option<Vec<&'a str>>, &'a str, Vec<&'a str>),
    Error,
>)
    requires
        spec_parse_message(s@) is Some,
    ensures
        match res {
            Ok((t, p, c, ps)) => spec_parse_message(s@) == Some(
                Ok::<MessageParts, ()>((opt_tags_view(t), opt_words_view(p), c@, views(ps@))),
            ),
            Err(e) => e@ == ErrorView::ParseError && spec_parse_message(s@) == Some(
                Err::<MessageParts, ()>(()),
            ),
        },
{
    let toks = split_char(s, ' ');
    let ghost all = split(s@, ' ');
    assert(toks@.len() == all.len());
    proof {
        lemma_split_first(s@, ' ');
    }
    let mut first_char = s.get_char(0);
    let mut next: usize = 0;
    let tags = if first_char == '@' {
        let tag_string = toks[0];
        assert(all[1] == toks@[1]@);
        first_char = toks[1].get_char(0);
        next = 1;
        let body = tag_string.substring_char(1, tag_string.unicode_len());
        assert(body@ =~= all[0].drop_first());
        match parse_tags(body) {
            Ok(t) => Some(t),
            Err(e) => return Err(e),
        }
    } else {
        None
    };
    let ghost rest = all.subrange(next as int, all.len() as int);
    proof {
        if next == 1 {
            assert(rest =~= all.drop_first());
        } else {
            assert(rest =~= all);
        }
        assert(views(toks@).subrange(next as int, toks@.len() as int) =~= rest);
    }
    if exceeds(&toks, next, MAX_MSG_SIZE) {
        return Err(Error::ParseError);
    }
    let prefix = if first_char == ':' {
        let prefix_string = toks[next];
        assert(prefix_string@ == rest[0]);
        let stripped = prefix_string.substring_char(1, prefix_string.unicode_len());
        assert(stripped@ =~= rest[0].drop_first());
        next = next + 1;
        match parse_prefix(stripped) {
            Ok(p) => Some(p),
            Err(e) => return Err(e),
        }
    } else {
        None
    };
    let ghost after = all.subrange(next as int, all.len() as int);
    proof {
        if prefix is Some {
            assert(after =~= rest.drop_first());
        } else {
            assert(after =~= rest);
        }
    }
    if next >= toks.len() {
        return Err(Error::ParseError);
    }
    let command = toks[next];
    assert(command@ == after[0]);
    proof {
        assert(views(toks@).subrange(next + 1, toks@.len() as int) =~= after.drop_first());
    }
    let params = collect_params(s, &toks, next + 1);
    Ok((tags, prefix, command, params))
}

} // verus!
