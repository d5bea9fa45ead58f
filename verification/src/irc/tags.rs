//! IRCv3 message tags: `key[=value]` pairs separated by `;`, with the
//! value escaped (`\s` for space, `\:` for `;`, `\r`, `\n`, `\\`).
use crate::irc::rfc_defs::{
    is_key_char, lemma_hostname_lacks, spec_valid_key, spec_valid_value, valid_key, valid_value,
};
use crate::text::{
    index_of, lemma_index_of, lemma_split_absent, lemma_split_once_concat, lemma_split_once_parts,
    lemma_split_two,
    owned, push_char, split, split_char, split_once, split_once_char, views,
};
use vstd::prelude::*;
use vstd::string::*;

verus! {

/// A tag list as the protocol sees it: `(key, value)` pairs in the order in
/// which their keys first appeared.
pub type TagList = Seq<(Seq<char>, Seq<char>)>;

/// No key occurs twice.
pub open spec fn keys_unique(e: TagList) -> bool {
    forall|i: int, j: int| 0 <= i < j < e.len() ==> #[trigger] e[i].0 != #[trigger] e[j].0
}

/// Some pair has key `k`.
pub open spec fn has_key(e: TagList, k: Seq<char>) -> bool {
    exists|i: int| 0 <= i < e.len() && #[trigger] e[i].0 == k
}

/// The position of key `k` (meaningful when `has_key(e, k)`).
pub open spec fn key_pos(e: TagList, k: Seq<char>) -> int {
    choose|i: int| 0 <= i < e.len() && #[trigger] e[i].0 == k
}

/// The value stored under `k`.
pub open spec fn lookup(e: TagList, k: Seq<char>) -> Option<Seq<char>> {
    if has_key(e, k) {
        Some(e[key_pos(e, k)].1)
    } else {
        None
    }
}

/// Store `v` under `k`: in place when `k` is present, at the end otherwise.
pub open spec fn upsert(e: TagList, k: Seq<char>, v: Seq<char>) -> TagList {
    if has_key(e, k) {
        e.update(key_pos(e, k), (k, v))
    } else {
        e.push((k, v))
    }
}

/// The escape sequence that stands for `c` in a tag value.
pub open spec fn escape_char(c: char) -> Seq<char> {
    if c == ' ' {
        seq!['\\', 's']
    } else if c == '\r' {
        seq!['\\', 'r']
    } else if c == '\n' {
        seq!['\\', 'n']
    } else if c == ';' {
        seq!['\\', ':']
    } else if c == '\\' {
        seq!['\\', '\\']
    } else {
        seq![c]
    }
}

/// A value with space, CR, LF, `;` and `\` escaped.
pub open spec fn escape(v: Seq<char>) -> Seq<char>
    decreases v.len(),
{
    if v.len() == 0 {
        Seq::empty()
    } else {
        escape_char(v[0]) + escape(v.drop_first())
    }
}

/// The character that `\x` stands for.
pub open spec fn unescape_char(x: char) -> char {
    if x == ':' {
        ';'
    } else if x == 'r' {
        '\r'
    } else if x == 's' {
        ' '
    } else if x == 'n' {
        '\n'
    } else {
        x
    }
}

/// A value with its escapes resolved; an unknown escape `\x` stands for `x`
/// and a trailing `\` is dropped.
pub open spec fn unescape(v: Seq<char>) -> Seq<char>
    decreases v.len(),
{
    if v.len() == 0 {
        Seq::empty()
    } else if v[0] == '\\' {
        if v.len() == 1 {
            Seq::empty()
        } else {
            seq![unescape_char(v[1])] + unescape(v.subrange(2, v.len() as int))
        }
    } else {
        seq![v[0]] + unescape(v.drop_first())
    }
}

/// The pair that one `;`-separated segment contributes, if any: a segment
/// `key=value` with a valid key and a valid (escaped) value, or a bare valid
/// key with an empty value.
pub open spec fn tag_entry(seg: Seq<char>) -> Option<(Seq<char>, Seq<char>)> {
    match split_once(seg, '=') {
        Some((k, v)) => if spec_valid_key(k) && spec_valid_value(v) {
            Some((k, unescape(v)))
        } else {
            None
        },
        None => if spec_valid_key(seg) {
            Some((seg, Seq::empty()))
        } else {
            None
        },
    }
}

/// The tag list that a sequence of segments gives, later keys superseding
/// the values of earlier ones.
pub open spec fn parse_segments(segs: Seq<Seq<char>>) -> TagList
    decreases segs.len(),
{
    if segs.len() == 0 {
        Seq::empty()
    } else {
        let t = parse_segments(segs.drop_last());
        match tag_entry(segs.last()) {
            Some((k, v)) => upsert(t, k, v),
            None => t,
        }
    }
}

/// The tag list of a tag string.
pub open spec fn spec_parse_tags(s: Seq<char>) -> TagList {
    parse_segments(split(s, ';'))
}

/// The text of one pair: `key=escaped-value`, or `key` when the value is empty.
pub open spec fn entry_text(k: Seq<char>, v: Seq<char>) -> Seq<char> {
    if v.len() > 0 {
        k + seq!['='] + escape(v)
    } else {
        k
    }
}

/// What `assemble_tags` writes: the first pair, then `;` and the second pair;
/// pairs after the second are not written.
pub open spec fn spec_assemble_tags(e: TagList) -> Seq<char> {
    if e.len() == 0 {
        Seq::empty()
    } else if e.len() == 1 {
        entry_text(e[0].0, e[0].1)
    } else {
        entry_text(e[0].0, e[0].1) + seq![';'] + entry_text(e[1].0, e[1].1)
    }
}

/// A map from tag keys to tag values that keeps the order in which keys
/// were first inserted.
pub struct Tags {
    entries: Vec<(String, String)>,
}

impl View for Tags {
    type V = TagList;

    closed spec fn view(&self) -> TagList {
        self.entries@.map_values(|e: (String, String)| (e.0@, e.1@))
    }
}

impl Tags {
    #[verifier::type_invariant]
    closed spec fn inv(self) -> bool {
        keys_unique(self@)
    }

    /// An empty tag map.
    pub fn new() -> (res: Tags)
        ensures
            res@ == Seq::<(Seq<char>, Seq<char>)>::empty(),
            keys_unique(res@),
    {
        let t = Tags { entries: Vec::new() };
        assert(t@ =~= Seq::<(Seq<char>, Seq<char>)>::empty());
        t
    }

    /// The number of keys.
    pub fn len(&self) -> (n: usize)
        ensures
            n == self@.len(),
    {
        self.entries.len()
    }

    /// Whether there are no keys.
    pub fn is_empty(&self) -> (b: bool)
        ensures
            b == (self@.len() == 0),
    {
        self.entries.len() == 0
    }

    /// The key and value of the `i`-th pair.
    pub fn entry_at(&self, i: usize) -> (res: (&String, &String))
        requires
            i < self@.len(),
        ensures
            res.0@ == self@[i as int].0,
            res.1@ == self@[i as int].1,
    {
        let e = &self.entries[i];
        (&e.0, &e.1)
    }

    fn position(&self, key: &String) -> (res: Option<usize>)
        ensures
            match res {
                Some(i) => i < self@.len() && self@[i as int].0 == key@,
                None => !has_key(self@, key@),
            },
    {
        let mut i: usize = 0;
        while i < self.entries.len()
            invariant
                i <= self.entries@.len(),
                self@.len() == self.entries@.len(),
                forall|j: int| 0 <= j < i ==> self@[j].0 != key@,
            decreases self.entries@.len() - i,
        {
            assert(self@[i as int].0 == self.entries@[i as int].0@);
            if self.entries[i].0 == *key {
                return Some(i);
            }
            i += 1;
        }
        None
    }

    /// The value stored under `key`.
    pub fn get(&self, key: &str) -> (res: Option<&String>)
        ensures
            match res {
                Some(v) => lookup(self@, key@) == Some(v@),
                None => lookup(self@, key@) is None,
            },
    {
        proof {
            use_type_invariant(self);
        }
        let k = owned(key);
        match self.position(&k) {
            Some(i) => {
                proof {
                    lemma_key_pos(self@, key@, i as int);
                }
                let e = &self.entries[i];
                Some(&e.1)
            },
            None => None,
        }
    }

    /// Whether `key` is present.
    pub fn contains_key(&self, key: &str) -> (res: bool)
        ensures
            res == has_key(self@, key@),
    {
        let k = owned(key);
        self.position(&k).is_some()
    }

    /// Stores `value` under `key`, replacing an earlier value in place.
    pub fn insert(&mut self, key: String, value: String)
        ensures
            final(self)@ == upsert(old(self)@, key@, value@),
            keys_unique(final(self)@),
    {
        proof {
            use_type_invariant(&*self);
        }
        let ghost old_view = self@;
        match self.position(&key) {
            Some(i) => {
                proof {
                    lemma_key_pos(old_view, key@, i as int);
                }
                let ghost kv = key@;
                let ghost vv = value@;
                let mut entries: Vec<(String, String)> = Vec::new();
                std::mem::swap(&mut entries, &mut self.entries);
                entries.set(i, (key, value));
                proof {
                    let nv = entries@.map_values(|e: (String, String)| (e.0@, e.1@));
                    assert(nv =~= old_view.update(i as int, (kv, vv)));
                    assert forall|a: int, b: int| 0 <= a < b < nv.len() implies #[trigger] nv[a].0
                        != #[trigger] nv[b].0 by {
                        assert(old_view[a].0 != old_view[b].0);
                    }
                }
                self.entries = entries;
            },
            None => {
                let ghost kv = key@;
                let ghost vv = value@;
                let mut entries: Vec<(String, String)> = Vec::new();
                std::mem::swap(&mut entries, &mut self.entries);
                entries.push((key, value));
                proof {
                    let nv = entries@.map_values(|e: (String, String)| (e.0@, e.1@));
                    assert(nv =~= old_view.push((kv, vv)));
                    assert forall|a: int, b: int| 0 <= a < b < nv.len() implies #[trigger] nv[a].0
                        != #[trigger] nv[b].0 by {
                        if b == old_view.len() {
                            assert(old_view[a].0 == nv[a].0);
                        } else {
                            assert(old_view[a].0 != old_view[b].0);
                        }
                    }
                }
                self.entries = entries;
            },
        }
    }
}

/// With unique keys, the position of a key is the only one holding it.
pub proof fn lemma_key_pos(e: TagList, k: Seq<char>, i: int)
    requires
        keys_unique(e),
        0 <= i < e.len(),
        e[i].0 == k,
    ensures
        has_key(e, k),
        key_pos(e, k) == i,
        lookup(e, k) == Some(e[i].1),
{
    assert(has_key(e, k));
    let j = key_pos(e, k);
    if j < i {
        assert(e[j].0 != e[i].0);
    } else if j > i {
        assert(e[i].0 != e[j].0);
    }
}

/// Resolves the escapes of a tag value.
pub fn copy_and_unescape_value(value: &str) -> (res: String)
    ensures
        res@ == unescape(value@),
{
    let n = value.unicode_len();
    let mut out = String::new();
    let mut i: usize = 0;
    assert(value@.subrange(0, n as int) =~= value@);
    while i < n
        invariant
            n == value@.len(),
            i <= n,
            out@ + unescape(value@.subrange(i as int, n as int)) == unescape(value@),
        decreases n - i,
    {
        let ghost rest = value@.subrange(i as int, n as int);
        let c = value.get_char(i);
        if c == '\\' {
            if i + 1 < n {
                let x = value.get_char(i + 1);
                let u = if x == ':' {
                    ';'
                } else if x == 'r' {
                    '\r'
                } else if x == 's' {
                    ' '
                } else if x == 'n' {
                    '\n'
                } else {
                    x
                };
                push_char(&mut out, u);
                assert(rest.subrange(2, rest.len() as int) =~= value@.subrange(i + 2, n as int));
                assert(out@ + unescape(value@.subrange(i + 2, n as int)) =~= unescape(value@));
                i += 2;
            } else {
                assert(unescape(rest) =~= Seq::<char>::empty());
                assert(out@ =~= out@ + unescape(rest));
                return out;
            }
        } else {
            push_char(&mut out, c);
            assert(rest.drop_first() =~= value@.subrange(i + 1, n as int));
            assert(out@ + unescape(value@.subrange(i + 1, n as int)) =~= unescape(value@));
            i += 1;
        }
    }
    assert(unescape(value@.subrange(n as int, n as int)) =~= Seq::<char>::empty());
    assert(out@ =~= out@ + unescape(value@.subrange(n as int, n as int)));
    out
}

/// Escapes space, CR, LF, `;` and `\` in a tag value.
pub fn copy_and_escape_value(value: &str) -> (res: String)
    ensures
        res@ == escape(value@),
{
    let n = value.unicode_len();
    let mut out = String::new();
    let mut i: usize = 0;
    assert(value@.subrange(0, n as int) =~= value@);
    while i < n
        invariant
            n == value@.len(),
            i <= n,
            out@ + escape(value@.subrange(i as int, n as int)) == escape(value@),
        decreases n - i,
    {
        let ghost rest = value@.subrange(i as int, n as int);
        let c = value.get_char(i);
        let ghost before = out@;
        if c == ' ' {
            push_char(&mut out, '\\');
            push_char(&mut out, 's');
        } else if c == '\r' {
            push_char(&mut out, '\\');
            push_char(&mut out, 'r');
        } else if c == '\n' {
            push_char(&mut out, '\\');
            push_char(&mut out, 'n');
        } else if c == ';' {
            push_char(&mut out, '\\');
            push_char(&mut out, ':');
        } else if c == '\\' {
            push_char(&mut out, '\\');
            push_char(&mut out, '\\');
        } else {
            push_char(&mut out, c);
        }
        assert(out@ =~= before + escape_char(c));
        assert(rest.drop_first() =~= value@.subrange(i + 1, n as int));
        assert(escape(rest) == escape_char(c) + escape(value@.subrange(i + 1, n as int)));
        assert(out@ + escape(value@.subrange(i + 1, n as int)) =~= before + escape(rest));
        i += 1;
    }
    assert(escape(value@.subrange(n as int, n as int)) =~= Seq::<char>::empty());
    assert(out@ =~= out@ + escape(value@.subrange(n as int, n as int)));
    out
}

/// The pair that one segment contributes, if any.
fn parse_segment(s: &str) -> (res: Option<(String, String)>)
    ensures
        match res {
            Some((k, v)) => tag_entry(s@) == Some((k@, v@)),
            None => tag_entry(s@) is None,
        },
{
    if let Some((key, val)) = split_once_char(s, '=') {
        if valid_key(key) && valid_value(val) {
            Some((owned(key), copy_and_unescape_value(val)))
        } else {
            None
        }
    } else {
        if valid_key(s) {
            Some((owned(s), String::new()))
        } else {
            None
        }
    }
}

/// Parses a tag string; segments with an invalid key or value are skipped,
/// and a later segment's value replaces an earlier one for the same key.
pub fn parse_tags(tag_string: &str) -> (tags: Tags)
    ensures
        tags@ == spec_parse_tags(tag_string@),
        keys_unique(tags@),
{
    let mut tags = Tags::new();
    proof {
        use_type_invariant(&tags);
    }
    let segs = split_char(tag_string, ';');
    let ghost ss = split(tag_string@, ';');
    assert(segs@.len() == ss.len());
    let mut i: usize = 0;
    assert(ss.subrange(0, 0) =~= Seq::<Seq<char>>::empty());
    while i < segs.len()
        invariant
            views(segs@) == ss,
            segs@.len() == ss.len(),
            ss == split(tag_string@, ';'),
            i <= segs@.len(),
            tags@ == parse_segments(ss.subrange(0, i as int)),
            keys_unique(tags@),
        decreases segs@.len() - i,
    {
        let s = segs[i];
        assert(s@ == ss[i as int]);
        let ghost prefix = ss.subrange(0, i as int + 1);
        assert(prefix.drop_last() =~= ss.subrange(0, i as int));
        assert(prefix.last() == s@);
        match parse_segment(s) {
            Some((k, v)) => {
                tags.insert(k, v);
            },
            None => {},
        }
        i += 1;
    }
    assert(ss.subrange(0, ss.len() as int) =~= ss);
    tags
}

fn push_entry(out: &mut String, k: &String, v: &String)
    ensures
        final(out)@ == old(out)@ + entry_text(k@, v@),
{
    out.append(k.as_str());
    if v.as_str().unicode_len() > 0 {
        push_char(out, '=');
        let e = copy_and_escape_value(v.as_str());
        out.append(e.as_str());
    }
}

/// Writes the first two pairs of `tags` as a tag string (see
/// `spec_assemble_tags`).
pub fn assemble_tags(tags: &Tags) -> (res: String)
    ensures
        res@ == spec_assemble_tags(tags@),
{
    let mut out = String::new();
    let n = tags.len();
    if n > 0 {
        let (k, v) = tags.entry_at(0);
        push_entry(&mut out, k, v);
    }
    if n > 1 {
        push_char(&mut out, ';');
        let (k, v) = tags.entry_at(1);
        push_entry(&mut out, k, v);
    }
    assert(out@ =~= spec_assemble_tags(tags@));
    out
}


// ---------------------------------------------------------------------------
// laws

/// Resolving the escapes of an escaped value gives the value back.
pub proof fn law_unescape_escape(v: Seq<char>)
    ensures
        unescape(escape(v)) == v,
    decreases v.len(),
{
    if v.len() > 0 {
        let c = v[0];
        let rest = v.drop_first();
        law_unescape_escape(rest);
        let w = escape(rest);
        let e = escape_char(c) + w;
        assert(escape(v) == e);
        if c == ' ' || c == '\r' || c == '\n' || c == ';' || c == '\\' {
            assert(e[0] == '\\');
            assert(e.subrange(2, e.len() as int) =~= w);
            assert(unescape(e) == seq![unescape_char(e[1])] + unescape(w));
        } else {
            assert(e.drop_first() =~= w);
            assert(unescape(e) == seq![c] + unescape(w));
        }
        assert(seq![c] + rest =~= v);
    }
}

/// An escaped value holds no `;`, space, CR or LF, and holds a NUL only
/// where the value does.
pub proof fn lemma_escape_clean(v: Seq<char>)
    ensures
        !escape(v).contains(';'),
        !v.contains('\0') ==> spec_valid_value(escape(v)),
    decreases v.len(),
{
    if v.len() > 0 {
        let rest = v.drop_first();
        lemma_escape_clean(rest);
        let a = escape_char(v[0]);
        let w = escape(rest);
        assert(escape(v) == a + w);
        assert forall|i: int| 0 <= i < (a + w).len() implies (a + w)[i] != ';' && (!v.contains(
            '\0',
        ) ==> !crate::irc::rfc_defs::is_not_tagval(#[trigger] (a + w)[i])) by {
            if i < a.len() {
                assert((a + w)[i] == a[i]);
                if !v.contains('\0') {
                    assert(v[0] != '\0');
                }
            } else {
                assert((a + w)[i] == w[i - a.len()]);
                if !v.contains('\0') {
                    if rest.contains('\0') {
                        let k = choose|k: int| 0 <= k < rest.len() && rest[k] == '\0';
                        assert(v[k + 1] == '\0');
                    }
                    assert(spec_valid_value(w));
                }
                if w[i - a.len()] == ';' {
                    assert(w.contains(';'));
                }
            }
        }
    }
}

/// A valid tag key holds neither `=` nor `;`.
pub proof fn lemma_key_clean(k: Seq<char>)
    requires
        spec_valid_key(k),
    ensures
        !k.contains('='),
        !k.contains(';'),
{
    let body = if k[0] == '+' {
        k.drop_first()
    } else {
        k
    };
    lemma_split_once_parts(body, '/');
    match split_once(body, '/') {
        Some((vendor, key)) => {
            lemma_hostname_lacks(vendor, '=');
            lemma_hostname_lacks(vendor, ';');
            assert forall|x: char| x == '=' || x == ';' implies !body.contains(x) by {
                if body.contains(x) {
                    let j = choose|j: int| 0 <= j < body.len() && body[j] == x;
                    if j < vendor.len() {
                        assert(vendor[j] == x);
                    } else if j > vendor.len() {
                        assert(key[j - vendor.len() - 1] == x);
                        assert(is_key_char(key[j - vendor.len() - 1]));
                    }
                }
            }
        },
        None => {
            assert forall|x: char| x == '=' || x == ';' implies !body.contains(x) by {
                if body.contains(x) {
                    let j = choose|j: int| 0 <= j < body.len() && body[j] == x;
                    assert(is_key_char(body[j]));
                }
            }
        },
    }
    assert forall|x: char| x == '=' || x == ';' implies !k.contains(x) by {
        if k.contains(x) {
            let j = choose|j: int| 0 <= j < k.len() && k[j] == x;
            if k[0] == '+' {
                assert(j > 0);
                assert(body[j - 1] == x);
            } else {
                assert(body[j] == x);
            }
        }
    }
}

/// A tag whose key is valid and whose value holds no NUL: what
/// `assemble_tags` writes of it, `parse_tags` reads back.
pub open spec fn writable_tag(e: (Seq<char>, Seq<char>)) -> bool {
    spec_valid_key(e.0) && !e.1.contains('\0')
}

/// The text of a writable pair reads back as that pair and holds no `;`.
proof fn lemma_entry_roundtrip(k: Seq<char>, v: Seq<char>)
    requires
        writable_tag((k, v)),
    ensures
        tag_entry(entry_text(k, v)) == Some((k, v)),
        !entry_text(k, v).contains(';'),
{
    lemma_key_clean(k);
    lemma_escape_clean(v);
    if v.len() > 0 {
        let e = escape(v);
        lemma_split_once_concat(k, '=', e);
        law_unescape_escape(v);
        let t = k + seq!['='] + e;
        if t.contains(';') {
            let j = choose|j: int| 0 <= j < t.len() && t[j] == ';';
            if j < k.len() {
                assert(k[j] == ';');
            } else if j > k.len() {
                assert(e[j - k.len() - 1] == ';');
            }
        }
    } else {
        lemma_index_of(k, '=');
        assert(v =~= Seq::<char>::empty());
    }
}

/// Writing at most two tags with valid keys and NUL-free values, then
/// parsing what was written, gives the same tags in the same order.
pub proof fn law_parse_assemble(t: TagList)
    requires
        t.len() <= 2,
        keys_unique(t),
        forall|i: int| 0 <= i < t.len() ==> writable_tag(#[trigger] t[i]),
    ensures
        spec_parse_tags(spec_assemble_tags(t)) == t,
{
    let empty = Seq::<(Seq<char>, Seq<char>)>::empty();
    if t.len() == 0 {
        let s = Seq::<char>::empty();
        lemma_split_absent(s, ';');
        lemma_index_of(s, '=');
        assert(seq![s].drop_last() =~= Seq::<Seq<char>>::empty());
        assert(t =~= empty);
        assert(parse_segments(Seq::<Seq<char>>::empty()) == empty);
        assert(seq![s].last() == s);
        assert(tag_entry(s) is None);
    } else if t.len() == 1 {
        let (k, v) = t[0];
        assert(writable_tag(t[0]));
        lemma_entry_roundtrip(k, v);
        let s = entry_text(k, v);
        lemma_split_absent(s, ';');
        assert(seq![s].drop_last() =~= Seq::<Seq<char>>::empty());
        assert(!has_key(empty, k));
        assert(empty.push((k, v)) =~= t);
        assert(parse_segments(Seq::<Seq<char>>::empty()) == empty);
        assert(seq![s].last() == s);
        assert(parse_segments(seq![s]) == upsert(empty, k, v));
    } else {
        let (k0, v0) = t[0];
        let (k1, v1) = t[1];
        assert(writable_tag(t[0]));
        assert(writable_tag(t[1]));
        lemma_entry_roundtrip(k0, v0);
        lemma_entry_roundtrip(k1, v1);
        let a = entry_text(k0, v0);
        let b = entry_text(k1, v1);
        lemma_split_two(a, ';', b);
        let segs = seq![a, b];
        assert(segs.drop_last() =~= seq![a]);
        assert(seq![a].drop_last() =~= Seq::<Seq<char>>::empty());
        assert(!has_key(empty, k0));
        let t1 = empty.push((k0, v0));
        assert(parse_segments(Seq::<Seq<char>>::empty()) == empty);
        assert(seq![a].last() == a);
        assert(parse_segments(seq![a]) == t1);
        assert(k0 != k1);
        assert(!has_key(t1, k1));
        assert(t1.push((k1, v1)) =~= t);
        assert(segs.last() == b);
        assert(parse_segments(segs) == upsert(t1, k1, v1));
        assert(split(spec_assemble_tags(t), ';') == segs);
    }
}

/// After storing `v` under `k`, `k` reads `v` and every other key reads
/// what it read before; keys stay unique.
pub proof fn law_lookup_upsert(e: TagList, k: Seq<char>, v: Seq<char>, other: Seq<char>)
    requires
        keys_unique(e),
        other != k,
    ensures
        keys_unique(upsert(e, k, v)),
        lookup(upsert(e, k, v), k) == Some(v),
        lookup(upsert(e, k, v), other) == lookup(e, other),
{
    let u = upsert(e, k, v);
    if has_key(e, k) {
        let i = key_pos(e, k);
        assert(u[i].0 == k);
        assert forall|a: int, b: int| 0 <= a < b < u.len() implies #[trigger] u[a].0
            != #[trigger] u[b].0 by {
            assert(e[a].0 != e[b].0);
        }
        lemma_key_pos(u, k, i);
        if has_key(e, other) {
            let j = key_pos(e, other);
            assert(u[j] == e[j]);
            lemma_key_pos(u, other, j);
        } else {
            if has_key(u, other) {
                let j = key_pos(u, other);
                assert(e[j].0 == other);
            }
        }
    } else {
        let i = e.len() as int;
        assert forall|a: int, b: int| 0 <= a < b < u.len() implies #[trigger] u[a].0
            != #[trigger] u[b].0 by {
            if b == i {
                assert(u[a].0 == e[a].0);
            } else {
                assert(e[a].0 != e[b].0);
            }
        }
        lemma_key_pos(u, k, i);
        if has_key(e, other) {
            let j = key_pos(e, other);
            assert(u[j] == e[j]);
            lemma_key_pos(u, other, j);
        } else {
            if has_key(u, other) {
                let j = key_pos(u, other);
                if j < i {
                    assert(e[j].0 == other);
                }
            }
        }
    }
}


/// Only valid keys are kept: every key of a parsed tag list is a valid key
/// (segments with invalid keys are dropped silently).
pub proof fn law_parsed_keys_valid(s: Seq<char>)
    ensures
        forall|i: int|
            0 <= i < spec_parse_tags(s).len() ==> spec_valid_key(#[trigger] spec_parse_tags(s)[i].0),
{
    lemma_segments_keys_valid(split(s, ';'));
}

proof fn lemma_segments_keys_valid(segs: Seq<Seq<char>>)
    ensures
        forall|i: int|
            0 <= i < parse_segments(segs).len() ==> spec_valid_key(#[trigger] parse_segments(segs)[i].0),
    decreases segs.len(),
{
    if segs.len() > 0 {
        lemma_segments_keys_valid(segs.drop_last());
        let t = parse_segments(segs.drop_last());
        match tag_entry(segs.last()) {
            Some((k, v)) => {
                assert(spec_valid_key(k));
                let r = upsert(t, k, v);
                assert forall|i: int| 0 <= i < r.len() implies spec_valid_key(#[trigger] r[i].0) by {
                    if i < t.len() && r[i] == t[i] {
                        assert(spec_valid_key(t[i].0));
                    }
                }
            },
            None => {},
        }
    }
}

} // verus!
