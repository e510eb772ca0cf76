//! Reading commands out of room chat: a line is for the bot when it starts
//! with the command prefix, or with a mention of the bot followed by a
//! space, which stands for the prefix.

use vstd::prelude::*;
use vstd::string::{StrSliceExecFns, StringExecFns};
use crate::client::arguments::{is_space, word_end};
use crate::text::{lowercase, str_eq, to_lower};

verus! {

/// Whether `s` begins with `p`.
pub open spec fn starts_with(s: Seq<char>, p: Seq<char>) -> bool {
    p.len() <= s.len() && s.subrange(0, p.len() as int) == p
}

/// The chat line that only mentions user `u`.
pub open spec fn mention_of(u: Seq<char>) -> Seq<char> {
    "@"@ + u
}

/// A line that starts with a mention of `u` and a space, with that start
/// replaced by `prefix`; any other line as it is.
pub open spec fn addressed(line: Seq<char>, u: Seq<char>, prefix: Seq<char>) -> Seq<char> {
    let m = mention_of(u) + " "@;
    if starts_with(line, m) {
        prefix + line.subrange(m.len() as int, line.len() as int)
    } else {
        line
    }
}

/// What a chat line asks of the bot.
#[derive(Debug, Clone, PartialEq, Eq)]
pub enum ChatCommand {
    /// The line only mentions the bot, which answers with its prefix.
    Mention,
    /// A command: its name and the text after the name.
    Invoke { name: String, args: String },
    /// The line is not for the bot.
    Ignore,
}

/// Whether `s` begins with `p`, char by char.
pub(crate) fn has_prefix(s: &str, p: &str) -> (r: bool)
    ensures
        r == starts_with(s@, p@),
{
    let n = p.unicode_len();
    if n > s.unicode_len() {
        return false;
    }
    let mut i: usize = 0;
    while i < n
        invariant
            n == p@.len(),
            n <= s@.len(),
            i <= n,
            forall|k: int| 0 <= k < i ==> s@[k] == p@[k],
        decreases n - i,
    {
        if s.get_char(i) != p.get_char(i) {
            assert(s@.subrange(0, n as int)[i as int] != p@[i as int]);
            return false;
        }
        i += 1;
    }
    assert(s@.subrange(0, n as int) =~= p@);
    true
}

/// Splits a line, already in lower case, into a command: the line must
/// start with `prefix`; the name runs up to the first white space, and the
/// arguments are what follows that one white-space character. A line with
/// no name right after the prefix is not a command.
pub fn split_command(line: &str, prefix: &str) -> (r: ChatCommand)
    ensures
        !starts_with(line@, prefix@) ==> r == ChatCommand::Ignore,
        starts_with(line@, prefix@) ==> ({
            let rest = line@.subrange(prefix@.len() as int, line@.len() as int);
            let e = word_end(rest, 0);
            &&& e == 0 ==> r == ChatCommand::Ignore
            &&& e > 0 ==> (r matches ChatCommand::Invoke { name, args } && name@ == rest.subrange(0, e)
                && args@ == (if e < rest.len() { rest.subrange(e + 1, rest.len() as int) } else { Seq::empty() }))
        }),
{
    if !has_prefix(line, prefix) {
        return ChatCommand::Ignore;
    }
    let n = line.unicode_len();
    let rest = line.substring_char(prefix.unicode_len(), n);
    let m = rest.unicode_len();
    let mut e: usize = 0;
    proof {
        assert(word_end(rest@, 0) == word_end(rest@, e as int));
    }
    while e < m && !is_space(rest.get_char(e))
        invariant
            m == rest@.len(),
            e <= m,
            word_end(rest@, 0) == word_end(rest@, e as int),
        decreases m - e,
    {
        e += 1;
    }
    if e == 0 {
        return ChatCommand::Ignore;
    }
    let name = String::from_str(rest.substring_char(0, e));
    let args = if e < m {
        String::from_str(rest.substring_char(e + 1, m))
    } else {
        String::new()
    };
    ChatCommand::Invoke { name, args }
}

/// Reads a chat line from another user: a line that is exactly a mention
/// of the bot asks for its prefix; otherwise a leading mention and space
/// stand for the prefix, the line is put in lower case and split into a
/// command.
pub fn parse_chat(line: &str, username: &str, prefix: &str) -> (r: ChatCommand)
    ensures
        line@ == mention_of(username@) ==> r == ChatCommand::Mention,
        line@ != mention_of(username@) ==> ({
            let lowered = lowercase(addressed(line@, username@, prefix@));
            &&& !starts_with(lowered, prefix@) ==> r == ChatCommand::Ignore
            &&& starts_with(lowered, prefix@) ==> ({
                let rest = lowered.subrange(prefix@.len() as int, lowered.len() as int);
                let e = word_end(rest, 0);
                &&& e == 0 ==> r == ChatCommand::Ignore
                &&& e > 0 ==> (r matches ChatCommand::Invoke { name, args } && name@ == rest.subrange(0, e)
                    && args@ == (if e < rest.len() { rest.subrange(e + 1, rest.len() as int) } else { Seq::empty() }))
            })
        }),
{
    let mut mention = String::from_str("@");
    mention.append(username);
    if str_eq(line, mention.as_str()) {
        return ChatCommand::Mention;
    }
    mention.append(" ");
    let replaced = if has_prefix(line, mention.as_str()) {
        let mut t = String::from_str(prefix);
        t.append(line.substring_char(mention.as_str().unicode_len(), line.unicode_len()));
        t
    } else {
        String::from_str(line)
    };
    let lowered = to_lower(replaced.as_str());
    split_command(lowered.as_str(), prefix)
}

} // verus!
