//! A book of chat commands with names, aliases, descriptions and
//! parameters, and the plan of calls that a chat message asks for. The
//! handlers themselves are kept by the caller, in the order the commands
//! were defined.

use vstd::prelude::*;
use vstd::string::{StrSliceExecFns, StringExecFns};
use crate::client::control::{Category, Restriction};
use crate::client::chat::{has_prefix, starts_with};
use crate::text::{lowercase, str_eq, str_views, to_lower, views};

verus! {

/// A user who sent a command.
#[derive(Debug)]
pub struct User {
    pub id: String,
    pub name: String,
    pub level: Restriction,
}

/// A parameter of a command, for its description.
#[derive(Debug)]
pub struct Parameter {
    pub name: String,
    /// The kind of value the parameter takes.
    pub kind: String,
    pub description: String,
    pub optional: bool,
}

/// What is shown of a command.
#[derive(Debug)]
pub struct CommandInfo {
    pub command: String,
    pub alts: Vec<String>,
    pub description: String,
    pub parameters: Vec<Parameter>,
}

/// The description of a command being defined.
#[derive(Debug)]
pub struct DefineParams {
    pub description: String,
    pub parameters: Vec<Parameter>,
    pub category: Category,
}

/// A defined command.
#[derive(Debug)]
struct CommandEntry {
    command: String,
    alts: Vec<String>,
    restricted: bool,
    description: String,
    category: Category,
    parameters: Vec<Parameter>,
}

/// A parameter as plain values: name, kind, description, whether optional.
pub open spec fn param_view(p: Parameter) -> (Seq<char>, Seq<char>, Seq<char>, bool) {
    (p.name@, p.kind@, p.description@, p.optional)
}

/// Parameters as plain values.
pub open spec fn params_view(ps: Seq<Parameter>) -> Seq<(Seq<char>, Seq<char>, Seq<char>, bool)> {
    ps.map_values(|p: Parameter| param_view(p))
}

/// A defined command as plain values.
pub struct EntryView {
    pub command: Seq<char>,
    pub alts: Seq<Seq<char>>,
    pub restricted: bool,
    pub description: Seq<char>,
    pub category: Category,
    pub parameters: Seq<(Seq<char>, Seq<char>, Seq<char>, bool)>,
}

/// What is shown of a command, as plain values.
pub open spec fn info_view(i: CommandInfo) -> (Seq<char>, Seq<Seq<char>>, Seq<char>, Seq<(Seq<char>, Seq<char>, Seq<char>, bool)>) {
    (i.command@, views(i.alts@), i.description@, params_view(i.parameters@))
}

/// What is shown of a defined command.
pub open spec fn info_of(e: EntryView) -> (Seq<char>, Seq<Seq<char>>, Seq<char>, Seq<(Seq<char>, Seq<char>, Seq<char>, bool)>) {
    (e.command, e.alts, e.description, e.parameters)
}

spec fn entry_view(e: CommandEntry) -> EntryView {
    EntryView {
        command: e.command@,
        alts: views(e.alts@),
        restricted: e.restricted,
        description: e.description@,
        category: e.category,
        parameters: params_view(e.parameters@),
    }
}

/// A book of commands.
pub struct Commands {
    /// The text a command message starts with.
    pub prefix: String,
    /// The text put before every reply.
    pub reply_prefix: String,
    /// The name of the bot, used in replies.
    pub name: String,
    restriction_levels: Vec<Restriction>,
    categories: Vec<Category>,
    listeners: Vec<CommandEntry>,
}

fn copy_param(p: &Parameter) -> (r: Parameter)
    ensures
        param_view(r) == param_view(*p),
{
    Parameter {
        name: p.name.clone(),
        kind: p.kind.clone(),
        description: p.description.clone(),
        optional: p.optional,
    }
}

fn copy_params(ps: &Vec<Parameter>) -> (r: Vec<Parameter>)
    ensures
        params_view(r@) == params_view(ps@),
{
    let mut r: Vec<Parameter> = Vec::new();
    let mut i: usize = 0;
    while i < ps.len()
        invariant
            i <= ps@.len(),
            params_view(r@) == params_view(ps@).take(i as int),
        decreases ps@.len() - i,
    {
        let p = copy_param(&ps[i]);
        let ghost before = r@;
        r.push(p);
        assert(params_view(r@) =~= params_view(before).push(param_view(ps@[i as int])));
        assert(params_view(ps@).take(i as int + 1) =~= params_view(ps@).take(i as int).push(param_view(ps@[i as int])));
        i += 1;
    }
    assert(params_view(ps@).take(ps@.len() as int) =~= params_view(ps@));
    r
}

fn copy_strings(ws: &Vec<String>) -> (r: Vec<String>)
    ensures
        views(r@) == views(ws@),
{
    let mut r: Vec<String> = Vec::new();
    let mut i: usize = 0;
    while i < ws.len()
        invariant
            i <= ws@.len(),
            views(r@) == views(ws@).take(i as int),
        decreases ws@.len() - i,
    {
        let ghost before = r@;
        r.push(ws[i].clone());
        assert(views(r@) =~= views(before).push(ws@[i as int]@));
        assert(views(ws@).take(i as int + 1) =~= views(ws@).take(i as int).push(ws@[i as int]@));
        i += 1;
    }
    assert(views(ws@).take(ws@.len() as int) =~= views(ws@));
    r
}

fn info_from(e: &CommandEntry) -> (r: CommandInfo)
    ensures
        info_view(r) == info_of(entry_view(*e)),
{
    CommandInfo {
        command: e.command.clone(),
        alts: copy_strings(&e.alts),
        description: e.description.clone(),
        parameters: copy_params(&e.parameters),
    }
}

impl Commands {
    /// The defined commands, in order.
    pub closed spec fn entries(self) -> Seq<EntryView> {
        self.listeners@.map_values(|e: CommandEntry| entry_view(e))
    }

    /// The command prefix.
    pub closed spec fn prefix_text(self) -> Seq<char> {
        self.prefix@
    }

    /// The reply prefix.
    pub closed spec fn reply_prefix_text(self) -> Seq<char> {
        self.reply_prefix@
    }

    /// The bot's name.
    pub closed spec fn name_text(self) -> Seq<char> {
        self.name@
    }

    /// The restriction levels, lowest first.
    pub closed spec fn levels(self) -> Seq<Restriction> {
        self.restriction_levels@
    }

    /// The categories commands are listed under, in order.
    pub closed spec fn category_list(self) -> Seq<Category> {
        self.categories@
    }

    /// Creates a book with no commands.
    pub fn new(restriction_levels: Vec<Restriction>, categories: Vec<Category>, prefix: &str, reply_prefix: &str, name: &str) -> (c: Self)
        ensures
            c.entries() == Seq::<EntryView>::empty(),
            c.levels() == restriction_levels@,
            c.category_list() == categories@,
            c.prefix_text() == prefix@,
            c.reply_prefix_text() == reply_prefix@,
            c.name_text() == name@,
    {
        let c = Commands {
            prefix: String::from_str(prefix),
            reply_prefix: String::from_str(reply_prefix),
            name: String::from_str(name),
            restriction_levels,
            categories,
            listeners: Vec::new(),
        };
        assert(c.entries() =~= Seq::<EntryView>::empty());
        c
    }

    /// Defines a command under its first name, with the other names as
    /// aliases. Its handler is the caller's, at the same position.
    pub fn define(&mut self, commands: &[&str], params: DefineParams, restricted: bool)
        requires
            commands@.len() > 0,
        ensures
            final(self).entries() == old(self).entries().push(
                EntryView {
                    command: commands@[0]@,
                    alts: str_views(commands@).drop_first(),
                    restricted,
                    description: params.description@,
                    category: params.category,
                    parameters: params_view(params.parameters@),
                },
            ),
            final(self).levels() == old(self).levels(),
            final(self).category_list() == old(self).category_list(),
            final(self).prefix_text() == old(self).prefix_text(),
            final(self).reply_prefix_text() == old(self).reply_prefix_text(),
            final(self).name_text() == old(self).name_text(),
    {
        let mut alts: Vec<String> = Vec::new();
        let mut i: usize = 1;
        while i < commands.len()
            invariant
                1 <= i <= commands@.len(),
                views(alts@) == str_views(commands@).subrange(1, i as int),
            decreases commands@.len() - i,
        {
            let ghost before = alts@;
            alts.push(String::from_str(commands[i]));
            assert(views(alts@) =~= views(before).push(commands@[i as int]@));
            assert(str_views(commands@).subrange(1, i as int + 1) =~= str_views(commands@).subrange(1, i as int).push(commands@[i as int]@));
            i += 1;
        }
        assert(str_views(commands@).subrange(1, commands@.len() as int) =~= str_views(commands@).drop_first());
        let e = CommandEntry {
            command: String::from_str(commands[0]),
            alts,
            restricted,
            description: params.description,
            category: params.category,
            parameters: params.parameters,
        };
        let ghost before = self.entries();
        self.listeners.push(e);
        assert(self.entries() =~= before.push(entry_view(e)));
    }

    /// The names of each command: its name, then its aliases.
    pub fn commands(&self) -> (r: Vec<Vec<String>>)
        ensures
            r@.len() == self.entries().len(),
            forall|i: int| 0 <= i < r@.len() ==> views(#[trigger] r@[i]@) == seq![self.entries()[i].command] + self.entries()[i].alts,
    {
        let mut r: Vec<Vec<String>> = Vec::new();
        let mut i: usize = 0;
        while i < self.listeners.len()
            invariant
                i <= self.listeners@.len(),
                r@.len() == i,
                forall|k: int| 0 <= k < i ==> views(#[trigger] r@[k]@) == seq![self.entries()[k].command] + self.entries()[k].alts,
            decreases self.listeners@.len() - i,
        {
            let l = &self.listeners[i];
            let mut names: Vec<String> = Vec::new();
            names.push(l.command.clone());
            let mut j: usize = 0;
            while j < l.alts.len()
                invariant
                    j <= l.alts@.len(),
                    views(names@) == seq![l.command@] + views(l.alts@).take(j as int),
                decreases l.alts@.len() - j,
            {
                let ghost before = names@;
                names.push(l.alts[j].clone());
                assert(views(names@) =~= views(before).push(l.alts@[j as int]@));
                assert(views(l.alts@).take(j as int + 1) =~= views(l.alts@).take(j as int).push(l.alts@[j as int]@));
                j += 1;
            }
            assert(views(l.alts@).take(l.alts@.len() as int) =~= views(l.alts@));
            assert(self.entries()[i as int] == entry_view(*l));
            r.push(names);
            i += 1;
        }
        r
    }

    /// What is shown of the first command named `command`, by its name or
    /// one of its aliases, exactly.
    pub fn info(&self, command: &str) -> (r: Option<CommandInfo>)
        ensures
            match first_named(self.entries(), command@) {
                None => r is None,
                Some(i) => r matches Some(info) && info_view(info) == info_of(self.entries()[i]),
            },
    {
        let mut i: usize = 0;
        while i < self.listeners.len()
            invariant
                i <= self.listeners@.len(),
                forall|k: int| 0 <= k < i ==> !named(#[trigger] self.entries()[k], command@),
            decreases self.listeners@.len() - i,
        {
            let l = &self.listeners[i];
            assert(self.entries()[i as int] == entry_view(*l));
            let mut hit = str_eq(l.command.as_str(), command);
            let mut j: usize = 0;
            while j < l.alts.len() && !hit
                invariant
                    j <= l.alts@.len(),
                    hit == (l.command@ == command@ || exists|k: int| 0 <= k < j && #[trigger] l.alts@[k]@ == command@),
                decreases l.alts@.len() - j,
            {
                hit = str_eq(l.alts[j].as_str(), command);
                j += 1;
            }
            proof {
                if !hit {
                    assert forall|k: int| 0 <= k < views(l.alts@).len() implies views(l.alts@)[k] != command@ by {
                        assert(views(l.alts@)[k] == l.alts@[k]@);
                    }
                } else if l.command@ != command@ {
                    let k = choose|k: int| 0 <= k < j && #[trigger] l.alts@[k]@ == command@;
                    assert(views(l.alts@)[k] == command@);
                }
            }
            if hit {
                proof {
                    lemma_first_named(self.entries(), command@, i as int);
                }
                return Some(info_from(l));
            }
            i += 1;
        }
        proof {
            lemma_first_named_none(self.entries(), command@);
        }
        None
    }
}

/// Whether a command has the name, or an alias, `n`.
pub open spec fn named(e: EntryView, n: Seq<char>) -> bool {
    e.command == n || e.alts.contains(n)
}

/// The first command named `n`.
pub open spec fn first_named(es: Seq<EntryView>, n: Seq<char>) -> Option<int>
    decreases es.len(),
{
    if es.len() == 0 {
        None
    } else if named(es[0], n) {
        Some(0)
    } else {
        match first_named(es.drop_first(), n) {
            None => None,
            Some(i) => Some(i + 1),
        }
    }
}

proof fn lemma_first_named(es: Seq<EntryView>, n: Seq<char>, i: int)
    requires
        0 <= i < es.len(),
        named(es[i], n),
        forall|k: int| 0 <= k < i ==> !named(#[trigger] es[k], n),
    ensures
        first_named(es, n) == Some(i),
    decreases i,
{
    if i > 0 {
        let t = es.drop_first();
        assert forall|k: int| 0 <= k < i - 1 implies !named(#[trigger] t[k], n) by {
            assert(t[k] == es[k + 1]);
        }
        assert(!named(es[0], n));
        lemma_first_named(t, n, i - 1);
    }
}

proof fn lemma_first_named_none(es: Seq<EntryView>, n: Seq<char>)
    requires
        forall|k: int| 0 <= k < es.len() ==> !named(#[trigger] es[k], n),
    ensures
        first_named(es, n) is None,
    decreases es.len(),
{
    if es.len() > 0 {
        let t = es.drop_first();
        assert forall|k: int| 0 <= k < t.len() implies !named(#[trigger] t[k], n) by {
            assert(t[k] == es[k + 1]);
        }
        assert(!named(es[0], n));
        lemma_first_named_none(t, n);
    }
}

/// The first position at or after `i` that holds a space, or the end.
pub open spec fn space_at(s: Seq<char>, i: int) -> int
    decreases s.len() - i,
{
    if i >= s.len() || i < 0 {
        s.len() as int
    } else if s[i] == ' ' {
        i
    } else {
        space_at(s, i + 1)
    }
}

/// The space found from `i` on is the first one there.
pub proof fn lemma_space_at(s: Seq<char>, i: int)
    requires
        0 <= i <= s.len(),
    ensures
        i <= space_at(s, i) <= s.len(),
        i < s.len() && s[i] != ' ' ==> space_at(s, i) > i,
        forall|k: int| i <= k < space_at(s, i) ==> s[k] != ' ',
        space_at(s, i) < s.len() ==> s[space_at(s, i)] == ' ',
    decreases s.len() - i,
{
    if i < s.len() && s[i] != ' ' {
        lemma_space_at(s, i + 1);
    }
}

/// The words of `s` from position `i` on, split at spaces, with empty
/// words dropped.
pub open spec fn space_words(s: Seq<char>, i: int) -> Seq<Seq<char>>
    decreases s.len() - i,
{
    if i >= s.len() || i < 0 {
        Seq::empty()
    } else if s[i] == ' ' {
        space_words(s, i + 1)
    } else {
        proof {
            lemma_space_at(s, i);
        }
        seq![s.subrange(i, space_at(s, i))] + space_words(s, space_at(s, i))
    }
}

/// The command word of a message, in lower case, and the text after it:
/// the message must start with the prefix, and the word runs up to the
/// first space after it.
pub open spec fn command_part(msg: Seq<char>, prefix: Seq<char>) -> Option<(Seq<char>, Seq<char>)> {
    if !starts_with(msg, prefix) {
        None
    } else {
        let suf = msg.subrange(prefix.len() as int, msg.len() as int);
        let e = space_at(suf, 0);
        if e == 0 {
            None
        } else {
            Some((lowercase(suf.subrange(0, e)), if e < suf.len() { suf.subrange(e + 1, suf.len() as int) } else { Seq::empty() }))
        }
    }
}

/// Whether a command answers to the lower-case word `cmd`, by its name or
/// an alias in lower case.
pub open spec fn answers(e: EntryView, cmd: Seq<char>) -> bool {
    lowercase(e.command) == cmd || exists|k: int| 0 <= k < e.alts.len() && lowercase(#[trigger] e.alts[k]) == cmd
}

/// The positions of the commands among the first `n` that answer to `cmd`.
pub open spec fn answering(es: Seq<EntryView>, cmd: Seq<char>, n: int) -> Seq<int>
    decreases n,
{
    if n <= 0 {
        Seq::empty()
    } else if answers(es[n - 1], cmd) {
        answering(es, cmd, n - 1).push(n - 1)
    } else {
        answering(es, cmd, n - 1)
    }
}

proof fn lemma_answering_bounds(es: Seq<EntryView>, cmd: Seq<char>, n: int)
    ensures
        forall|j: int| 0 <= j < answering(es, cmd, n).len() ==> 0 <= #[trigger] answering(es, cmd, n)[j] < n,
    decreases n,
{
    if n > 0 {
        lemma_answering_bounds(es, cmd, n - 1);
        let a = answering(es, cmd, n - 1);
        assert forall|j: int| 0 <= j < answering(es, cmd, n).len() implies 0 <= #[trigger] answering(es, cmd, n)[j] < n by {
            if j < a.len() {
                assert(answering(es, cmd, n)[j] == a[j]);
            }
        }
    }
}

/// The position of level `l` among the levels, or zero when it is not one
/// of them.
pub open spec fn level_index(levels: Seq<Restriction>, l: Restriction) -> int {
    if exists|k: int| 0 <= k < levels.len() && levels[k] == l {
        choose|k: int| 0 <= k < levels.len() && levels[k] == l && forall|j: int| 0 <= j < k ==> levels[j] != l
    } else {
        0
    }
}

/// What a listener is handed: the reply prefix its replies start with,
/// the arguments, and the user.
#[derive(Debug)]
pub struct ListenerInput {
    pub reply_prefix: String,
    pub args: Vec<String>,
    pub user: User,
}

/// One step of answering a message.
#[derive(Debug)]
pub enum Call {
    /// Send this text to the room.
    Send(String),
    /// Run the handler of command `index` with the input.
    Run { index: usize, input: ListenerInput },
}

/// Whether `c` is the step for command `k`: a refusal when the command is
/// restricted and the user's level is below the required one, else a run
/// with the arguments and the user.
pub open spec fn call_for(
    c: Call,
    k: int,
    book: Commands,
    user: User,
    restriction: Restriction,
    args: Seq<Seq<char>>,
) -> bool {
    if book.entries()[k].restricted && level_index(book.levels(), user.level) < level_index(book.levels(), restriction) {
        c matches Call::Send(t) && t@ == book.reply_prefix_text() + book.name_text() + "'s commands are currently restricted."@
    } else {
        c matches Call::Run { index, input } && index == k && input.reply_prefix@ == book.reply_prefix_text()
            && views(input.args@) == args && input.user.id@ == user.id@ && input.user.name@ == user.name@
            && input.user.level == user.level
    }
}

fn copy_user(u: &User) -> (r: User)
    ensures
        r.id@ == u.id@,
        r.name@ == u.name@,
        r.level == u.level,
{
    User { id: u.id.clone(), name: u.name.clone(), level: u.level }
}

fn split_spaces(s: &str) -> (r: Vec<String>)
    ensures
        views(r@) == space_words(s@, 0),
{
    let n = s.unicode_len();
    let mut r: Vec<String> = Vec::new();
    let mut i: usize = 0;
    while i < n
        invariant
            n == s@.len(),
            i <= n,
            views(r@) + space_words(s@, i as int) == space_words(s@, 0),
        decreases n - i,
    {
        if s.get_char(i) == ' ' {
            i += 1;
        } else {
            let mut e = i;
            proof {
                lemma_space_at(s@, i as int);
            }
            while e < n && s.get_char(e) != ' '
                invariant
                    n == s@.len(),
                    i <= e <= n,
                    space_at(s@, i as int) == space_at(s@, e as int),
                decreases n - e,
            {
                e += 1;
            }
            let ghost before = r@;
            r.push(String::from_str(s.substring_char(i, e)));
            proof {
                assert(views(r@) =~= views(before).push(s@.subrange(i as int, e as int)));
                assert(space_words(s@, i as int) == seq![s@.subrange(i as int, e as int)] + space_words(s@, e as int));
                assert(views(r@) + space_words(s@, e as int) =~= views(before) + space_words(s@, i as int));
            }
            i = e;
        }
    }
    assert(views(r@) + space_words(s@, n as int) =~= views(r@));
    r
}

fn level_position(levels: &Vec<Restriction>, l: Restriction) -> (r: usize)
    ensures
        r as int == level_index(levels@, l),
{
    let mut k: usize = 0;
    while k < levels.len()
        invariant
            k <= levels@.len(),
            forall|j: int| 0 <= j < k ==> levels@[j] != l,
        decreases levels@.len() - k,
    {
        if levels[k] == l {
            proof {
                let c = choose|c: int| 0 <= c < levels@.len() && levels@[c] == l && forall|j: int| 0 <= j < c ==> levels@[j] != l;
                if c < k {
                } else if c > k {
                    assert(levels@[k as int] == l);
                }
            }
            return k;
        }
        k += 1;
    }
    0
}

impl Commands {
    /// Whether command `i` answers to the lower-case word `cmd`.
    fn answers_at(&self, i: usize, cmd: &str) -> (r: bool)
        requires
            i < self.entries().len(),
        ensures
            r == answers(self.entries()[i as int], cmd@),
    {
        let l = &self.listeners[i];
        assert(self.entries()[i as int] == entry_view(*l));
        let c = to_lower(l.command.as_str());
        if str_eq(c.as_str(), cmd) {
            return true;
        }
        let mut j: usize = 0;
        while j < l.alts.len()
            invariant
                j <= l.alts@.len(),
                i < self.entries().len(),
                self.entries()[i as int] == entry_view(*l),
                forall|k: int| 0 <= k < j ==> lowercase(#[trigger] l.alts@[k]@) != cmd@,
            decreases l.alts@.len() - j,
        {
            let a = to_lower(l.alts[j].as_str());
            if str_eq(a.as_str(), cmd) {
                assert(views(l.alts@)[j as int] == l.alts@[j as int]@);
                assert(lowercase(self.entries()[i as int].alts[j as int]) == cmd@);
                return true;
            }
            j += 1;
        }
        assert forall|k: int| 0 <= k < views(l.alts@).len() implies lowercase(#[trigger] views(l.alts@)[k]) != cmd@ by {
            assert(views(l.alts@)[k] == l.alts@[k]@);
        }
        false
    }

    /// The steps that answer a chat message: nothing when it is not a
    /// command; a notice when no command answers to its word; otherwise,
    /// for each command that answers, in order, a run with the message's
    /// space-separated arguments or, for a restricted command and a user
    /// below the required level, a refusal.
    pub fn prepare_calls(&self, user: User, message: &str, restriction: Restriction) -> (r: Vec<Call>)
        ensures
            command_part(message@, self.prefix_text()) is None ==> r@.len() == 0,
            command_part(message@, self.prefix_text()) matches Some((cmd, rest)) ==> ({
                let ms = answering(self.entries(), cmd, self.entries().len() as int);
                &&& ms.len() == 0 ==> r@.len() == 1
                &&& ms.len() == 0 ==> (r@[0] matches Call::Send(t) && t@ == "Unknown command.\nRun "@
                    + self.prefix_text() + "help for a list of valid commands."@)
                &&& ms.len() > 0 ==> (r@.len() == ms.len() && forall|i: int| 0 <= i < ms.len() ==> call_for(
                    #[trigger] r@[i],
                    ms[i],
                    *self,
                    user,
                    restriction,
                    space_words(rest, 0),
                ))
            }),
    {
        if !has_prefix(message, self.prefix.as_str()) {
            return Vec::new();
        }
        let n = message.unicode_len();
        let suffix = message.substring_char(self.prefix.as_str().unicode_len(), n);
        let m = suffix.unicode_len();
        let mut e: usize = 0;
        while e < m && suffix.get_char(e) != ' '
            invariant
                m == suffix@.len(),
                e <= m,
                space_at(suffix@, 0) == space_at(suffix@, e as int),
            decreases m - e,
        {
            e += 1;
        }
        if e == 0 {
            return Vec::new();
        }
        let command = to_lower(suffix.substring_char(0, e));
        let rest = if e < m {
            suffix.substring_char(e + 1, m)
        } else {
            ""
        };
        proof {
            if e >= m {
                reveal_strlit("");
                assert(rest@ =~= Seq::<char>::empty());
            }
        }
        self.calls_for(user, command.as_str(), rest, restriction)
    }

    /// The steps that answer a command word, already in lower case, with
    /// the text after it: a notice when no command answers to the word;
    /// otherwise, for each command that answers, in order, a run with the
    /// text's space-separated arguments or, for a restricted command and a
    /// user below the required level, a refusal.
    pub fn calls_for(&self, user: User, command: &str, rest: &str, restriction: Restriction) -> (r: Vec<Call>)
        ensures
            ({
                let ms = answering(self.entries(), command@, self.entries().len() as int);
                &&& ms.len() == 0 ==> r@.len() == 1
                &&& ms.len() == 0 ==> (r@[0] matches Call::Send(t) && t@ == "Unknown command.\nRun "@
                    + self.prefix_text() + "help for a list of valid commands."@)
                &&& ms.len() > 0 ==> (r@.len() == ms.len() && forall|i: int| 0 <= i < ms.len() ==> call_for(
                    #[trigger] r@[i],
                    ms[i],
                    *self,
                    user,
                    restriction,
                    space_words(rest@, 0),
                ))
            }),
    {
        let args = split_spaces(rest);
        let ghost cmd = command@;
        let mut matching: Vec<usize> = Vec::new();
        let mut i: usize = 0;
        while i < self.listeners.len()
            invariant
                i <= self.listeners@.len(),
                self.entries().len() == self.listeners@.len(),
                matching@.map_values(|x: usize| x as int) == answering(self.entries(), cmd, i as int),
                command@ == cmd,
            decreases self.listeners@.len() - i,
        {
            if self.answers_at(i, command) {
                let ghost before = matching@;
                matching.push(i);
                assert(matching@.map_values(|x: usize| x as int) =~= before.map_values(|x: usize| x as int).push(i as int));
            }
            i += 1;
        }
        proof {
            lemma_answering_bounds(self.entries(), cmd, self.entries().len() as int);
            assert forall|j: int| 0 <= j < matching@.len() implies #[trigger] matching@[j] < self.listeners@.len() by {
                assert(matching@.map_values(|x: usize| x as int)[j] == matching@[j] as int);
            }
        }
        let mut calls: Vec<Call> = Vec::new();
        if matching.len() == 0 {
            let mut t = String::from_str("Unknown command.\nRun ");
            t.append(self.prefix.as_str());
            t.append("help for a list of valid commands.");
            calls.push(Call::Send(t));
            return calls;
        }
        let user_index = level_position(&self.restriction_levels, user.level);
        let required_index = level_position(&self.restriction_levels, restriction);
        let mut k: usize = 0;
        while k < matching.len()
            invariant
                k <= matching@.len(),
                calls@.len() == k,
                matching@.map_values(|x: usize| x as int) == answering(self.entries(), cmd, self.entries().len() as int),
                forall|j: int| 0 <= j < matching@.len() ==> #[trigger] matching@[j] < self.listeners@.len(),
                user_index as int == level_index(self.levels(), user.level),
                required_index as int == level_index(self.levels(), restriction),
                views(args@) == space_words(rest@, 0),
                forall|j: int| 0 <= j < k ==> call_for(#[trigger] calls@[j], matching@[j] as int, *self, user, restriction, space_words(rest@, 0)),
            decreases matching@.len() - k,
        {
            let idx = matching[k];
            assert(matching@.map_values(|x: usize| x as int)[k as int] == idx as int);
            let l = &self.listeners[idx];
            assert(self.entries()[idx as int] == entry_view(*l));
            if l.restricted && user_index < required_index {
                let mut t = self.reply_prefix.clone();
                t.append(self.name.as_str());
                t.append("'s commands are currently restricted.");
                calls.push(Call::Send(t));
            } else {
                let input = ListenerInput { reply_prefix: self.reply_prefix.clone(), args: copy_strings(&args), user: copy_user(&user) };
                calls.push(Call::Run { index: idx, input });
            }
            k += 1;
        }
        calls
    }
}

/// What is shown of the commands of category `c` among the first `n`, in
/// order.
pub open spec fn infos_in(es: Seq<EntryView>, c: Category, n: int) -> Seq<(Seq<char>, Seq<Seq<char>>, Seq<char>, Seq<(Seq<char>, Seq<char>, Seq<char>, bool)>)>
    decreases n,
{
    if n <= 0 {
        Seq::empty()
    } else if es[n - 1].category == c {
        infos_in(es, c, n - 1).push(info_of(es[n - 1]))
    } else {
        infos_in(es, c, n - 1)
    }
}

/// The commands by category: each of the first `n` categories once, at
/// its first place in the list, with what is shown of its commands;
/// categories without commands are left out.
pub open spec fn groups(cats: Seq<Category>, es: Seq<EntryView>, n: int) -> Seq<(Category, Seq<(Seq<char>, Seq<Seq<char>>, Seq<char>, Seq<(Seq<char>, Seq<char>, Seq<char>, bool)>)>)>
    decreases n,
{
    if n <= 0 {
        Seq::empty()
    } else {
        let g = groups(cats, es, n - 1);
        let c = cats[n - 1];
        let infos = infos_in(es, c, es.len() as int);
        if cats.take(n - 1).contains(c) || infos.len() == 0 {
            g
        } else {
            g.push((c, infos))
        }
    }
}

impl Commands {
    /// What is shown of the commands of category `c`, in order.
    fn infos_of_category(&self, c: Category) -> (r: Vec<CommandInfo>)
        ensures
            r@.map_values(|i: CommandInfo| info_view(i)) == infos_in(self.entries(), c, self.entries().len() as int),
    {
        let mut r: Vec<CommandInfo> = Vec::new();
        let mut i: usize = 0;
        while i < self.listeners.len()
            invariant
                i <= self.listeners@.len(),
                self.entries().len() == self.listeners@.len(),
                r@.map_values(|x: CommandInfo| info_view(x)) == infos_in(self.entries(), c, i as int),
            decreases self.listeners@.len() - i,
        {
            let l = &self.listeners[i];
            assert(self.entries()[i as int] == entry_view(*l));
            if l.category == c {
                let info = info_from(l);
                let ghost before = r@;
                r.push(info);
                assert(r@.map_values(|x: CommandInfo| info_view(x)) =~= before.map_values(|x: CommandInfo| info_view(x)).push(info_view(info)));
            }
            i += 1;
        }
        r
    }

    /// The commands by category, in the order of the categories, each
    /// category once; categories without commands are left out.
    pub fn get_commands_by_category(&self) -> (r: Vec<(Category, Vec<CommandInfo>)>)
        ensures
            r@.len() == groups(self.category_list(), self.entries(), self.category_list().len() as int).len(),
            forall|i: int| 0 <= i < r@.len() ==> {
                let g = groups(self.category_list(), self.entries(), self.category_list().len() as int)[i];
                &&& (#[trigger] r@[i]).0 == g.0
                &&& r@[i].1@.map_values(|x: CommandInfo| info_view(x)) == g.1
            },
    {
        let mut r: Vec<(Category, Vec<CommandInfo>)> = Vec::new();
        let mut i: usize = 0;
        while i < self.categories.len()
            invariant
                i <= self.categories@.len(),
                r@.len() == groups(self.category_list(), self.entries(), i as int).len(),
                forall|k: int| 0 <= k < r@.len() ==> {
                    let g = groups(self.category_list(), self.entries(), i as int)[k];
                    &&& (#[trigger] r@[k]).0 == g.0
                    &&& r@[k].1@.map_values(|x: CommandInfo| info_view(x)) == g.1
                },
            decreases self.categories@.len() - i,
        {
            let c = self.categories[i];
            let mut seen = false;
            let mut j: usize = 0;
            while j < i
                invariant
                    j <= i,
                    i < self.categories@.len(),
                    c == self.categories@[i as int],
                    seen == exists|k: int| 0 <= k < j && self.categories@[k] == c,
                decreases i - j,
            {
                if self.categories[j] == c {
                    seen = true;
                }
                j += 1;
            }
            proof {
                let t = self.categories@.take(i as int);
                if seen {
                    let k = choose|k: int| 0 <= k < j && self.categories@[k] == c;
                    assert(t[k] == c);
                } else {
                    assert forall|k: int| 0 <= k < t.len() implies t[k] != c by {
                        assert(t[k] == self.categories@[k]);
                    }
                }
            }
            if !seen {
                let infos = self.infos_of_category(c);
                if infos.len() > 0 {
                    r.push((c, infos));
                }
            }
            i += 1;
        }
        r
    }
}

} // verus!
