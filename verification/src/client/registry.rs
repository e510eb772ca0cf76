//! The registry of chat commands: lookup by name or alias, ignoring case,
//! and the help text that lists them.

use vstd::prelude::*;
use vstd::string::{StrSliceExecFns, StringExecFns};
use crate::client::arguments::{skip_space, trim_end, Arguments};
use crate::client::control::{Category, Restriction};
use crate::text::{
    join, join_strings, join_strs, lowercase, sort_strings, sort_words, str_views, to_lower,
    views,
};

verus! {

/// Static metadata describing a command.
#[derive(Clone, Copy, Debug)]
pub struct CommandMetadata {
    /// The primary name used to invoke this command.
    pub name: &'static str,
    /// Alternative names that also trigger this command.
    pub aliases: &'static [&'static str],
    /// A short description shown in help text.
    pub description: &'static str,
    /// How the arguments are written.
    pub usage: &'static str,
    /// The level a user needs to run this command.
    pub restriction_level: Restriction,
    /// The group the command is listed under.
    pub category: Category,
}

/// The keys under which a command is indexed: its name, then its aliases,
/// all in lower case.
pub open spec fn keys_of(m: CommandMetadata) -> Seq<Seq<char>> {
    seq![lowercase(m.name@)] + m.aliases@.map_values(|a: &str| lowercase(a@))
}

/// The index entries that registering `m` as command `i` adds.
pub open spec fn entries_of(m: CommandMetadata, i: int) -> Seq<(Seq<char>, int)> {
    keys_of(m).map_values(|k: Seq<char>| (k, i))
}

/// The command that key `k` leads to: the entry added last for `k`.
pub open spec fn lookup(keys: Seq<(Seq<char>, int)>, k: Seq<char>) -> Option<int>
    decreases keys.len(),
{
    if keys.len() == 0 {
        None
    } else if keys.last().0 == k {
        Some(keys.last().1)
    } else {
        lookup(keys.drop_last(), k)
    }
}

/// A registry that maps command names and aliases to commands.
pub struct Registry {
    /// The registered commands, in order.
    commands: Vec<CommandMetadata>,
    /// Lower-case names and aliases with the command each leads to, in the
    /// order they were added.
    index: Vec<(String, usize)>,
}

impl Registry {
    /// The registered commands, in order.
    pub closed spec fn commands(self) -> Seq<CommandMetadata> {
        self.commands@
    }

    /// The index entries, in the order they were added.
    pub closed spec fn keys(self) -> Seq<(Seq<char>, int)> {
        self.index@.map_values(|e: (String, usize)| (e.0@, e.1 as int))
    }

    /// Every entry leads to a registered command.
    pub open spec fn wf(self) -> bool {
        forall|j: int| 0 <= j < self.keys().len() ==> 0 <= #[trigger] self.keys()[j].1 < self.commands().len()
    }

    /// Creates an empty registry.
    pub fn new() -> (r: Self)
        ensures
            r.wf(),
            r.commands() == Seq::<CommandMetadata>::empty(),
            r.keys() == Seq::<(Seq<char>, int)>::empty(),
    {
        let r = Registry { commands: Vec::new(), index: Vec::new() };
        assert(r.keys() =~= Seq::<(Seq<char>, int)>::empty());
        r
    }

    /// Registers a command; its name and all its aliases are indexed in
    /// lower case, and a key that was taken now leads to this command.
    pub fn register(&mut self, meta: CommandMetadata)
        requires
            old(self).wf(),
        ensures
            final(self).wf(),
            final(self).commands() == old(self).commands().push(meta),
            final(self).keys() == old(self).keys() + entries_of(meta, old(self).commands().len() as int),
    {
        let idx = self.commands.len();
        self.commands.push(meta);
        let ghost k0 = self.keys();
        let key = to_lower(meta.name);
        self.index.push((key, idx));
        assert(self.keys() =~= k0 + entries_of(meta, idx as int).take(1));
        let mut j: usize = 0;
        while j < meta.aliases.len()
            invariant
                idx == old(self).commands().len(),
                self.commands() == old(self).commands().push(meta),
                k0 == old(self).keys(),
                j <= meta.aliases@.len(),
                self.keys() == k0 + entries_of(meta, idx as int).take(j + 1),
            decreases meta.aliases@.len() - j,
        {
            let key = to_lower(meta.aliases[j]);
            let ghost before = self.keys();
            self.index.push((key, idx));
            assert(self.keys() =~= before.push((lowercase(meta.aliases@[j as int]@), idx as int)));
            assert(entries_of(meta, idx as int).take(j + 2) =~= entries_of(meta, idx as int).take(j + 1).push(
                (lowercase(meta.aliases@[j as int]@), idx as int),
            ));
            j += 1;
        }
        assert(entries_of(meta, idx as int).take(meta.aliases@.len() as int + 1) =~= entries_of(meta, idx as int));
        assert forall|j: int| 0 <= j < self.keys().len() implies 0 <= #[trigger] self.keys()[j].1 < self.commands().len() by {
            if j >= k0.len() {
                assert(self.keys()[j] == entries_of(meta, idx as int)[j - k0.len()]);
            } else {
                assert(self.keys()[j] == k0[j]);
            }
        }
    }

    /// Looks up a command by name or alias, ignoring case.
    pub fn find(&self, name: &str) -> (r: Option<&CommandMetadata>)
        requires
            self.wf(),
        ensures
            match lookup(self.keys(), lowercase(name@)) {
                None => r is None,
                Some(i) => r matches Some(m) && *m == self.commands()[i],
            },
    {
        let key = to_lower(name);
        self.find_key(key.as_str())
    }

    /// Looks up a command by an index key, a name or alias already in
    /// lower case.
    pub fn find_key(&self, key: &str) -> (r: Option<&CommandMetadata>)
        requires
            self.wf(),
        ensures
            match lookup(self.keys(), key@) {
                None => r is None,
                Some(i) => r matches Some(m) && *m == self.commands()[i],
            },
    {
        let mut j = self.index.len();
        assert(self.keys().take(j as int) =~= self.keys());
        while j > 0
            invariant
                j <= self.index@.len(),
                self.wf(),
                lookup(self.keys(), key@) == lookup(self.keys().take(j as int), key@),
            decreases j,
        {
            let e = &self.index[j - 1];
            proof {
                assert(self.keys().take(j as int).drop_last() =~= self.keys().take(j as int - 1));
                assert(self.keys().take(j as int).last() == self.keys()[j as int - 1]);
                assert(self.keys()[j as int - 1] == (e.0@, e.1 as int));
            }
            if crate::text::str_eq(e.0.as_str(), key) {
                let i = e.1;
                assert(self.keys()[j as int - 1].1 == i as int);
                assert(lookup(self.keys().take(j as int), key@) == Some(i as int));
                assert(i < self.commands@.len());
                return Some(&self.commands[i]);
            }
            j -= 1;
        }
        None
    }

    /// The registered commands, in order.
    pub fn iter(&self) -> (r: &[CommandMetadata])
        ensures
            r@ == self.commands(),
    {
        self.commands.as_slice()
    }
}

impl Default for Registry {
    /// An empty registry.
    fn default() -> (r: Self)
        ensures
            r.wf(),
            r.commands() == Seq::<CommandMetadata>::empty(),
            r.keys() == Seq::<(Seq<char>, int)>::empty(),
    {
        Registry::new()
    }
}

/// Looking a key up in two runs of entries: the later run decides where it
/// holds the key.
proof fn lemma_lookup_append(a: Seq<(Seq<char>, int)>, b: Seq<(Seq<char>, int)>, k: Seq<char>)
    ensures
        lookup(a + b, k) == (if lookup(b, k) is Some { lookup(b, k) } else { lookup(a, k) }),
    decreases b.len(),
{
    if b.len() == 0 {
        assert(a + b =~= a);
    } else {
        assert((a + b).drop_last() =~= a + b.drop_last());
        assert((a + b).last() == b.last());
        lemma_lookup_append(a, b.drop_last(), k);
    }
}

/// In entries that all lead to command `n`, a key that occurs leads there.
proof fn lemma_lookup_block(m: CommandMetadata, n: int, k: Seq<char>)
    ensures
        keys_of(m).contains(k) ==> lookup(entries_of(m, n), k) == Some(n),
        !keys_of(m).contains(k) ==> lookup(entries_of(m, n), k) is None,
{
    let e = entries_of(m, n);
    assert forall|j: int| 0 <= j <= e.len() implies
        (keys_of(m).take(j).contains(k) ==> lookup(e.take(j), k) == Some(n))
        && (!keys_of(m).take(j).contains(k) ==> lookup(e.take(j), k) is None) by {
        lemma_lookup_prefix(m, n, k, j);
    }
    assert(e.take(e.len() as int) =~= e);
    assert(keys_of(m).take(e.len() as int) =~= keys_of(m));
}

proof fn lemma_lookup_prefix(m: CommandMetadata, n: int, k: Seq<char>, j: int)
    requires
        0 <= j <= entries_of(m, n).len(),
    ensures
        keys_of(m).take(j).contains(k) ==> lookup(entries_of(m, n).take(j), k) == Some(n),
        !keys_of(m).take(j).contains(k) ==> lookup(entries_of(m, n).take(j), k) is None,
    decreases j,
{
    let e = entries_of(m, n);
    let ks = keys_of(m);
    if j > 0 {
        lemma_lookup_prefix(m, n, k, j - 1);
        assert(e.take(j).drop_last() =~= e.take(j - 1));
        assert(ks.take(j) =~= ks.take(j - 1).push(ks[j - 1]));
        assert(e.take(j).last() == (ks[j - 1], n));
        if ks.take(j).contains(k) && ks[j - 1] != k {
            let t = ks.take(j);
            let w = choose|w: int| 0 <= w < t.len() && #[trigger] t[w] == k;
            assert(ks.take(j - 1)[w] == k);
        }
        if !ks.take(j).contains(k) {
            assert(ks.take(j)[j - 1] == ks[j - 1]);
            if ks.take(j - 1).contains(k) {
                let t = ks.take(j - 1);
                let w = choose|w: int| 0 <= w < t.len() && #[trigger] t[w] == k;
                assert(ks.take(j)[w] == k);
            }
        }
    }
}

/// After a command is registered, its name and each of its aliases, in
/// any case that lowers to the same key, lead to it; every other key leads
/// where it led before.
pub proof fn law_find_after_register(before: Seq<(Seq<char>, int)>, m: CommandMetadata, n: int, k: Seq<char>)
    ensures
        keys_of(m).contains(k) ==> lookup(before + entries_of(m, n), k) == Some(n),
        !keys_of(m).contains(k) ==> lookup(before + entries_of(m, n), k) == lookup(before, k),
        lookup(before + entries_of(m, n), lowercase(m.name@)) == Some(n),
{
    lemma_lookup_append(before, entries_of(m, n), k);
    lemma_lookup_block(m, n, k);
    lemma_lookup_append(before, entries_of(m, n), lowercase(m.name@));
    lemma_lookup_block(m, n, lowercase(m.name@));
    assert(keys_of(m)[0] == lowercase(m.name@));
}

/// Developer commands are shown to developers only.
pub open spec fn hidden(m: CommandMetadata, level: Restriction) -> bool {
    m.category == Category::Dev && level != Restriction::Dev
}

/// The line that describes one command: its name, its aliases in
/// brackets, its usage and its description.
pub open spec fn detail_text(m: CommandMetadata) -> Seq<char> {
    let alts = if m.aliases@.len() == 0 {
        Seq::empty()
    } else {
        " ("@ + join(str_views(m.aliases@), "/"@) + ")"@
    };
    let usage = if m.usage@.len() == 0 {
        Seq::empty()
    } else {
        " "@ + m.usage@
    };
    m.name@ + alts + usage + ": "@ + m.description@
}

/// A command as listed: its name and its aliases, separated by slashes.
pub open spec fn entry_text(m: CommandMetadata) -> Seq<char> {
    if m.aliases@.len() == 0 {
        m.name@
    } else {
        m.name@ + "/"@ + join(str_views(m.aliases@), "/"@)
    }
}

/// The entries of the commands of category `c` shown at `level`, in
/// registration order.
pub open spec fn entries_in(cmds: Seq<CommandMetadata>, c: Category, level: Restriction) -> Seq<Seq<char>>
    decreases cmds.len(),
{
    if cmds.len() == 0 {
        Seq::empty()
    } else {
        let rest = entries_in(cmds.drop_last(), c, level);
        let m = cmds.last();
        if m.category == c && !hidden(m, level) {
            rest.push(entry_text(m))
        } else {
            rest
        }
    }
}

/// The heading of a category in the list.
pub open spec fn heading(c: Category) -> Seq<char> {
    match c {
        Category::Info => "Info"@,
        Category::Controls => "Controls"@,
        Category::Solver => "Solver"@,
        Category::Dev => "Dev"@,
    }
}

/// The part of the list for category `c`: its heading and its sorted
/// entries, or nothing when no command of it is shown.
pub open spec fn section(cmds: Seq<CommandMetadata>, c: Category, level: Restriction) -> Seq<char> {
    let es = sort_words(entries_in(cmds, c, level));
    if es.len() == 0 {
        Seq::empty()
    } else {
        "\n"@ + heading(c) + ":\n  "@ + join(es, " | "@)
    }
}

/// The list of commands, by category in alphabetical order of the
/// categories' names.
pub open spec fn listing(cmds: Seq<CommandMetadata>, level: Restriction) -> Seq<char> {
    "Available commands:"@ + section(cmds, Category::Controls, level) + section(cmds, Category::Dev, level)
        + section(cmds, Category::Info, level) + section(cmds, Category::Solver, level)
}

/// The help reply: the list of commands, or the description of the named
/// command, which a hidden command does not get.
pub open spec fn help_reply(cmds: Seq<CommandMetadata>, keys: Seq<(Seq<char>, int)>, level: Restriction, name: Option<Seq<char>>) -> Seq<char> {
    match name {
        None => listing(cmds, level),
        Some(n) => match lookup(keys, lowercase(n)) {
            None => "Command not found"@,
            Some(i) => if hidden(cmds[i], level) {
                "Command not found"@
            } else {
                detail_text(cmds[i])
            },
        },
    }
}

fn hidden_at(m: &CommandMetadata, level: Restriction) -> (r: bool)
    ensures
        r == hidden(*m, level),
{
    m.category == Category::Dev && level != Restriction::Dev
}

fn detail_string(m: &CommandMetadata) -> (r: String)
    ensures
        r@ == detail_text(*m),
{
    let mut r = String::from_str(m.name);
    if m.aliases.len() > 0 {
        r.append(" (");
        let a = join_strs(m.aliases, "/");
        r.append(a.as_str());
        r.append(")");
    }
    if m.usage.unicode_len() > 0 {
        r.append(" ");
        r.append(m.usage);
    }
    r.append(": ");
    r.append(m.description);
    r
}

fn entry_string(m: &CommandMetadata) -> (r: String)
    ensures
        r@ == entry_text(*m),
{
    let mut r = String::from_str(m.name);
    if m.aliases.len() > 0 {
        r.append("/");
        let a = join_strs(m.aliases, "/");
        r.append(a.as_str());
    }
    r
}

fn heading_str(c: Category) -> (r: &'static str)
    ensures
        r@ == heading(c),
{
    match c {
        Category::Info => "Info",
        Category::Controls => "Controls",
        Category::Solver => "Solver",
        Category::Dev => "Dev",
    }
}

fn section_string(cmds: &[CommandMetadata], c: Category, level: Restriction) -> (r: String)
    ensures
        r@ == section(cmds@, c, level),
{
    let mut es: Vec<String> = Vec::new();
    let mut i: usize = 0;
    while i < cmds.len()
        invariant
            i <= cmds@.len(),
            views(es@) == entries_in(cmds@.take(i as int), c, level),
        decreases cmds@.len() - i,
    {
        proof {
            assert(cmds@.take(i as int + 1).drop_last() =~= cmds@.take(i as int));
            assert(cmds@.take(i as int + 1).last() == cmds@[i as int]);
        }
        let m = &cmds[i];
        if m.category == c && !hidden_at(m, level) {
            let e = entry_string(m);
            let ghost before = es@;
            es.push(e);
            assert(views(es@) =~= views(before).push(entry_text(*m)));
        }
        i += 1;
    }
    assert(cmds@.take(cmds@.len() as int) =~= cmds@);
    let sorted = sort_strings(es);
    if sorted.len() == 0 {
        return String::new();
    }
    let mut r = String::from_str("\n");
    r.append(heading_str(c));
    r.append(":\n  ");
    let j = join_strings(&sorted, " | ");
    r.append(j.as_str());
    r
}

/// The help reply to a user at `level`: with no name, the commands the
/// user may see, by category, each sorted; with a name, the description of
/// that command, or `Command not found`.
pub fn help(registry: &Registry, level: Restriction, name: Option<&str>) -> (r: String)
    requires
        registry.wf(),
    ensures
        r@ == help_reply(registry.commands(), registry.keys(), level, match name {
            Some(n) => Some(n@),
            None => None,
        }),
{
    match name {
        Some(n) => match registry.find(n) {
            None => String::from_str("Command not found"),
            Some(m) => {
                if hidden_at(m, level) {
                    String::from_str("Command not found")
                } else {
                    detail_string(m)
                }
            },
        },
        None => {
            let cmds = registry.iter();
            let mut r = String::from_str("Available commands:");
            let a = section_string(cmds, Category::Controls, level);
            r.append(a.as_str());
            let b = section_string(cmds, Category::Dev, level);
            r.append(b.as_str());
            let c = section_string(cmds, Category::Info, level);
            r.append(c.as_str());
            let d = section_string(cmds, Category::Solver, level);
            r.append(d.as_str());
            r
        },
    }
}

/// A text without the white space around it.
pub open spec fn trimmed(s: Seq<char>) -> Seq<char> {
    let i = skip_space(s, 0);
    s.subrange(i, trim_end(s, i, s.len() as int))
}

/// The lines that are not blank, each trimmed, in order.
pub open spec fn description_lines(ls: Seq<Seq<char>>) -> Seq<Seq<char>>
    decreases ls.len(),
{
    if ls.len() == 0 {
        Seq::empty()
    } else {
        let r = description_lines(ls.drop_last());
        let t = trimmed(ls.last());
        if t.len() == 0 {
            r
        } else {
            r.push(t)
        }
    }
}

/// A command's description from the lines of its doc comment: each line
/// trimmed, blank lines dropped, the rest joined by spaces.
pub fn doc_comment_description(lines: &[&str]) -> (r: String)
    ensures
        r@ == join(description_lines(str_views(lines@)), " "@),
{
    let mut kept: Vec<String> = Vec::new();
    let mut i: usize = 0;
    while i < lines.len()
        invariant
            i <= lines@.len(),
            views(kept@) == description_lines(str_views(lines@).take(i as int)),
        decreases lines@.len() - i,
    {
        proof {
            assert(str_views(lines@).take(i as int + 1).drop_last() =~= str_views(lines@).take(i as int));
            assert(str_views(lines@).take(i as int + 1).last() == lines@[i as int]@);
        }
        let mut a = Arguments::new(lines[i]);
        let t = a.rest();
        if t.unicode_len() > 0 {
            let ghost before = kept@;
            kept.push(String::from_str(t));
            assert(views(kept@) =~= views(before).push(t@));
        }
        i += 1;
    }
    assert(str_views(lines@).take(lines@.len() as int) =~= str_views(lines@));
    join_strings(&kept, " ")
}

/// Each label in angle brackets.
pub open spec fn bracketed(ls: Seq<Seq<char>>) -> Seq<Seq<char>> {
    ls.map_values(|l: Seq<char>| "<"@ + l + ">"@)
}

/// A command's usage from the labels of its parameters: each label in
/// angle brackets, separated by spaces.
pub fn command_usage(labels: &[&str]) -> (r: String)
    ensures
        r@ == join(bracketed(str_views(labels@)), " "@),
{
    let mut parts: Vec<String> = Vec::new();
    let mut i: usize = 0;
    while i < labels.len()
        invariant
            i <= labels@.len(),
            views(parts@) == bracketed(str_views(labels@).take(i as int)),
        decreases labels@.len() - i,
    {
        let mut p = String::from_str("<");
        p.append(labels[i]);
        p.append(">");
        let ghost before = parts@;
        parts.push(p);
        assert(views(parts@) =~= views(before).push("<"@ + labels@[i as int]@ + ">"@));
        assert(bracketed(str_views(labels@).take(i as int + 1)) =~= bracketed(str_views(labels@).take(i as int)).push(
            "<"@ + labels@[i as int]@ + ">"@,
        ));
        i += 1;
    }
    assert(str_views(labels@).take(labels@.len() as int) =~= str_views(labels@));
    join_strings(&parts, " ")
}

} // verus!
