//! Small experiments with enums, boxes and strings.
use crate::text::{find_char, owned};
use vstd::prelude::*;
use vstd::string::*;

verus! {

/// A command with a boxed payload.
#[derive(Debug)]
pub enum Cmd {
    Join(String),
    Quit,
    Message(String, String),
}

/// The one way `gimme_enum_box` fails.
#[derive(Debug)]
pub enum MyErrorType {
    Fail,
}

/// A greeting and a boxed command for `JOIN`, `QUIT` and `MSG`.
pub fn gimme_enum_box(cmd: &str) -> (res: Result<(String, Box<Cmd>), MyErrorType>)
    ensures
        if cmd@ == "JOIN"@ {
            res matches Ok((msg, b)) && msg@ == "you joined!"@ && (*b matches Cmd::Join(c) && c@
                == "channel"@)
        } else if cmd@ == "QUIT"@ {
            res matches Ok((msg, b)) && msg@ == "oh no :( bye"@ && *b is Quit
        } else if cmd@ == "MSG"@ {
            res matches Ok((msg, b)) && msg@ == "hi!"@ && (*b matches Cmd::Message(x, y) && x@
                == "foo"@ && y@ == "bar"@)
        } else {
            res is Err
        },
{
    let c = owned(cmd);
    if c == owned("JOIN") {
        let msg = owned("you joined!");
        let boxy = Box::new(Cmd::Join(owned("channel")));
        Ok((msg, boxy))
    } else if c == owned("QUIT") {
        let msg = owned("oh no :( bye");
        let boxy = Box::new(Cmd::Quit);
        Ok((msg, boxy))
    } else if c == owned("MSG") {
        let msg = owned("hi!");
        let boxy = Box::new(Cmd::Message(owned("foo"), owned("bar")));
        Ok((msg, boxy))
    } else {
        Err(MyErrorType::Fail)
    }
}

/// Two fixed strings.
pub fn funny_stuff() -> (res: (String, String))
    ensures
        res.0@ == "how now"@,
        res.1@ == "brown cow"@,
{
    (owned("how now"), owned("brown cow"))
}

/// `None` for a string without a space, `Some("LOLS")` otherwise.
pub fn option_test(thingy: String) -> (res: Option<String>)
    ensures
        match res {
            Some(s) => thingy@.contains(' ') && s@ == "LOLS"@,
            None => !thingy@.contains(' '),
        },
{
    proof {
        crate::text::lemma_index_of(thingy@, ' ');
    }
    if find_char(thingy.as_str(), ' ').is_none() {
        None
    } else {
        Some(owned("LOLS"))
    }
}

/// The second of two strings.
pub fn foo() -> (res: String)
    ensures
        res@ == "stuff"@,
{
    let mut veccy: Vec<String> = Vec::new();
    veccy.push(owned("lol"));
    veccy.push(owned("stuff"));
    veccy.remove(1)
}

/// The text before the first `y`, twice; two empty strings when there is no `y`.
pub fn baz<'a>(a: &'a str) -> (res: (&'a str, &'a str))
    ensures
        match crate::text::split_once(a@, 'y') {
            Some((before, _)) => res.0@ == before && res.1@ == before,
            None => res.0@ == Seq::<char>::empty() && res.1@ == Seq::<char>::empty(),
        },
{
    proof {
        crate::text::lemma_index_of(a@, 'y');
        reveal_strlit("");
    }
    if let Some(index) = find_char(a, 'y') {
        let b = a.substring_char(0, index);
        (b, b)
    } else {
        ("", "")
    }
}

} // verus!
