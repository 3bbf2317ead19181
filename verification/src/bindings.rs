//! Key bindings as a configuration file has them: keys with modifiers, and
//! the commands that each is bound to.

use crate::config::{Cmd, Mods};
use crate::doc::texts;
use crate::scfg::{config, directive_view, directive_views, parse, Directive, DirectiveView, Error};
use crate::text::{chars_of, same_text, string_of};
use vstd::prelude::*;
use vstd::utf8::encode_utf8;

verus! {

/// The number of the key that a name names, whatever the case of its
/// letters, as `kbvm` has it.
pub uninterp spec fn keysym_named(name: Seq<char>) -> Option<u32>;

/// `kbvm::Keysym::from_str_insensitive`: the keysym with that name, where the
/// case of the letters does not count, and nothing where no keysym has the
/// name. The result depends on the name alone.
#[verifier::external_body]
fn keysym_from_str(name: &str) -> (keysym: Option<u32>)
    ensures
        keysym == keysym_named(name@),
{
    kbvm::Keysym::from_str_insensitive(name).map(|keysym| keysym.0)
}

/// What is wrong with a configuration.
#[derive(Clone, Debug, PartialEq, Eq)]
pub enum ConfigError {
    /// It is not well formed.
    Syntax(Error),
    /// The directive `bindings` has parameters.
    TooManyParameters { line: usize },
    /// A command in the block of a binding has parameters.
    ExtraParameters { line: usize },
    /// A binding has both a command and a block.
    UnexpectedBlock { line: usize },
    /// A binding has more than one command beside it.
    NotOneParameter { line: usize },
    /// No command has this name.
    InvalidCommand { line: usize, name: String },
    /// A binding names this modifier twice.
    DuplicateModifier { line: usize, name: String },
    /// No key has this name.
    InvalidKey { line: usize, name: String },
    /// A binding names more than one key.
    TooManyKeys { line: usize },
    /// A binding names no key.
    NoKey { line: usize },
    /// A directive at the top is not `bindings`.
    InvalidDirective { line: usize, name: String },
}

/// A fault as a value.
pub enum Fault {
    Syntax(Error),
    TooManyParameters { line: usize },
    ExtraParameters { line: usize },
    UnexpectedBlock { line: usize },
    NotOneParameter { line: usize },
    InvalidCommand { line: usize, name: Seq<char> },
    DuplicateModifier { line: usize, name: Seq<char> },
    InvalidKey { line: usize, name: Seq<char> },
    TooManyKeys { line: usize },
    NoKey { line: usize },
    InvalidDirective { line: usize, name: Seq<char> },
}

impl View for ConfigError {
    type V = Fault;

    open spec fn view(&self) -> Fault {
        match self {
            ConfigError::Syntax(error) => Fault::Syntax(*error),
            ConfigError::TooManyParameters { line } => Fault::TooManyParameters { line: *line },
            ConfigError::ExtraParameters { line } => Fault::ExtraParameters { line: *line },
            ConfigError::UnexpectedBlock { line } => Fault::UnexpectedBlock { line: *line },
            ConfigError::NotOneParameter { line } => Fault::NotOneParameter { line: *line },
            ConfigError::InvalidCommand { line, name } => Fault::InvalidCommand {
                line: *line,
                name: name@,
            },
            ConfigError::DuplicateModifier { line, name } => Fault::DuplicateModifier {
                line: *line,
                name: name@,
            },
            ConfigError::InvalidKey { line, name } => Fault::InvalidKey { line: *line, name: name@ },
            ConfigError::TooManyKeys { line } => Fault::TooManyKeys { line: *line },
            ConfigError::NoKey { line } => Fault::NoKey { line: *line },
            ConfigError::InvalidDirective { line, name } => Fault::InvalidDirective {
                line: *line,
                name: name@,
            },
        }
    }
}

/// A key with modifiers, and the commands that it is bound to.
#[derive(Clone, Debug, PartialEq, Eq)]
pub struct Binding {
    pub mods: Mods,
    pub keysym: u32,
    pub cmds: Vec<Cmd>,
}

/// A binding as a value.
pub struct BindingView {
    pub mods: Mods,
    pub keysym: u32,
    pub cmds: Seq<Cmd>,
}

impl View for Binding {
    type V = BindingView;

    open spec fn view(&self) -> BindingView {
        BindingView { mods: self.mods, keysym: self.keysym, cmds: self.cmds@ }
    }
}

/// The bindings of a list, as values.
pub open spec fn binding_views(list: Seq<Binding>) -> Seq<BindingView> {
    Seq::new(list.len(), |i: int| list[i]@)
}

/// The key bindings of a configuration. No two are for the same key with the
/// same modifiers.
#[derive(Clone, Debug, PartialEq, Eq)]
pub struct Config {
    pub bindings: Vec<Binding>,
}

/// The place of the first plus sign from a place on, or the end of the text.
pub open spec fn next_plus(text: Seq<char>, pos: int) -> int
    decreases text.len() - pos,
{
    if 0 <= pos < text.len() && text[pos] != '+' {
        next_plus(text, pos + 1)
    } else {
        pos
    }
}

/// The pieces of a text from a place on that plus signs part. There is
/// always one, which may be empty.
pub open spec fn pieces_from(text: Seq<char>, pos: int) -> Seq<Seq<char>>
    decreases text.len() - pos,
{
    if 0 <= pos < text.len() {
        let end = next_plus(text, pos);
        if pos <= end < text.len() {
            seq![text.subrange(pos, end)] + pieces_from(text, end + 1)
        } else {
            seq![text.subrange(pos, text.len() as int)]
        }
    } else {
        seq![Seq::empty()]
    }
}

/// The names of the commands of a binding: the one beside it, or those in
/// its block, each of which is to stand alone.
pub open spec fn command_names(binding: DirectiveView) -> Result<Seq<Seq<char>>, Fault> {
    if binding.params.len() == 0 {
        block_names(binding.children, Seq::empty())
    } else if binding.children.len() != 0 {
        Err(Fault::UnexpectedBlock { line: binding.line })
    } else if binding.params.len() != 1 {
        Err(Fault::NotOneParameter { line: binding.line })
    } else {
        Ok(binding.params)
    }
}

/// The names of the commands in a block, behind those so far.
pub open spec fn block_names(children: Seq<DirectiveView>, so_far: Seq<Seq<char>>) -> Result<Seq<Seq<char>>, Fault>
    decreases children.len(),
{
    if children.len() == 0 {
        Ok(so_far)
    } else if children[0].params.len() != 0 {
        Err(Fault::ExtraParameters { line: children[0].line })
    } else {
        block_names(children.drop_first(), so_far.push(children[0].name))
    }
}

/// The commands that names name, behind those so far.
pub open spec fn commands(names: Seq<Seq<char>>, line: usize, so_far: Seq<Cmd>) -> Result<Seq<Cmd>, Fault>
    decreases names.len(),
{
    if names.len() == 0 {
        Ok(so_far)
    } else {
        match Cmd::named(names[0]) {
            Some(cmd) => commands(names.drop_first(), line, so_far.push(cmd)),
            None => Err(Fault::InvalidCommand { line, name: names[0] }),
        }
    }
}

/// The modifiers and the key that pieces name, beside those so far. A piece
/// that names a modifier is that; any other is to name a key.
pub open spec fn keys(pieces: Seq<Seq<char>>, line: usize, mods: Mods, keysym: Option<u32>) -> Result<(Mods, Option<u32>), Fault>
    decreases pieces.len(),
{
    if pieces.len() == 0 {
        Ok((mods, keysym))
    } else {
        let piece = pieces[0];
        match Mods::named(encode_utf8(piece)) {
            Some(modifier) => if mods.0 | modifier.0 == mods.0 {
                Err(Fault::DuplicateModifier { line, name: piece })
            } else {
                keys(pieces.drop_first(), line, Mods(mods.0 | modifier.0), keysym)
            },
            None => match keysym_named(piece) {
                None => Err(Fault::InvalidKey { line, name: piece }),
                Some(found) => if keysym is Some {
                    Err(Fault::TooManyKeys { line })
                } else {
                    keys(pieces.drop_first(), line, mods, Some(found))
                },
            },
        }
    }
}

/// The binding that a directive stands for: its name names the key and the
/// modifiers, with plus signs between them.
pub open spec fn binding_of(directive: DirectiveView) -> Result<BindingView, Fault> {
    match command_names(directive) {
        Err(fault) => Err(fault),
        Ok(names) => match commands(names, directive.line, Seq::empty()) {
            Err(fault) => Err(fault),
            Ok(cmds) => match keys(pieces_from(directive.name, 0), directive.line, Mods(0), None) {
                Err(fault) => Err(fault),
                Ok((mods, None)) => Err(Fault::NoKey { line: directive.line }),
                Ok((mods, Some(keysym))) => Ok(BindingView { mods, keysym, cmds }),
            },
        },
    }
}

/// The place of the first binding for a key with modifiers.
pub open spec fn bound_at(list: Seq<BindingView>, mods: Mods, keysym: u32) -> Option<int>
    decreases list.len(),
{
    if list.len() == 0 {
        None
    } else if list[0].mods == mods && list[0].keysym == keysym {
        Some(0)
    } else {
        match bound_at(list.drop_first(), mods, keysym) {
            Some(place) => Some(place + 1),
            None => None,
        }
    }
}

/// A list of bindings with one more: it takes the place of the one for the
/// same key with the same modifiers, or the place behind the last.
pub open spec fn rebound(list: Seq<BindingView>, binding: BindingView) -> Seq<BindingView> {
    match bound_at(list, binding.mods, binding.keysym) {
        Some(place) => if 0 <= place < list.len() {
            list.update(place, binding)
        } else {
            list
        },
        None => list.push(binding),
    }
}

/// The bindings with those that a block of directives stands for.
pub open spec fn block_bindings(children: Seq<DirectiveView>, so_far: Seq<BindingView>) -> Result<Seq<BindingView>, Fault>
    decreases children.len(),
{
    if children.len() == 0 {
        Ok(so_far)
    } else {
        match binding_of(children[0]) {
            Err(fault) => Err(fault),
            Ok(binding) => block_bindings(children.drop_first(), rebound(so_far, binding)),
        }
    }
}

/// The bindings with those that directives stand for: each directive is to
/// be `bindings`, without parameters, with the bindings in its block.
pub open spec fn all_bindings(directives: Seq<DirectiveView>, so_far: Seq<BindingView>) -> Result<Seq<BindingView>, Fault>
    decreases directives.len(),
{
    if directives.len() == 0 {
        Ok(so_far)
    } else {
        let directive = directives[0];
        if directive.name != "bindings"@ {
            Err(Fault::InvalidDirective { line: directive.line, name: directive.name })
        } else if directive.params.len() != 0 {
            Err(Fault::TooManyParameters { line: directive.line })
        } else {
            match block_bindings(directive.children, so_far) {
                Err(fault) => Err(fault),
                Ok(bindings) => all_bindings(directives.drop_first(), bindings),
            }
        }
    }
}

/// The bindings that a configuration text stands for.
pub open spec fn configured(text: Seq<char>) -> Result<Seq<BindingView>, Fault> {
    match config(text) {
        Err(error) => Err(Fault::Syntax(error)),
        Ok(directives) => all_bindings(directives, Seq::empty()),
    }
}

/// The pieces of a text that plus signs part.
pub fn split_plus(text: &Vec<char>) -> (all: Vec<Vec<char>>)
    ensures
        texts(all@) == pieces_from(text@, 0),
{
    let mut all: Vec<Vec<char>> = Vec::new();
    let mut pos: usize = 0;
    let n: usize = text.len();
    let mut done: bool = false;
    assert(texts(all@) + pieces_from(text@, 0) =~= pieces_from(text@, 0));
    while !done
        invariant
            pos <= n,
            n == text@.len(),
            !done ==> texts(all@) + pieces_from(text@, pos as int) == pieces_from(text@, 0),
            done ==> texts(all@) == pieces_from(text@, 0),
        decreases n - pos + if done { 0int } else { 1int },
    {
        let ghost before = texts(all@);
        let start: usize = pos;
        let mut piece: Vec<char> = Vec::new();
        while pos < n && text[pos] != '+'
            invariant
                start <= pos <= n,
                n == text@.len(),
                piece@ == text@.subrange(start as int, pos as int),
                next_plus(text@, pos as int) == next_plus(text@, start as int),
            decreases n - pos,
        {
            piece.push(text[pos]);
            assert(piece@ =~= text@.subrange(start as int, pos + 1));
            pos = pos + 1;
        }
        let ghost added = piece@;
        all.push(piece);
        assert(texts(all@) =~= before.push(added));
        if pos < n {
            pos = pos + 1;
            assert(texts(all@) + pieces_from(text@, pos as int) =~= before + pieces_from(
                text@,
                start as int,
            ));
        } else {
            proof {
                if start == n {
                    assert(added =~= Seq::<char>::empty());
                }
                assert(texts(all@) =~= before + pieces_from(text@, start as int));
            }
            done = true;
        }
    }
    all
}

/// The modifiers and the key that the name of a binding names.
fn parse_keys(name: &str, line: usize) -> (result: Result<(Mods, Option<u32>), ConfigError>)
    ensures
        match keys(pieces_from(name@, 0), line, Mods(0), None) {
            Ok(found) => result == Ok::<(Mods, Option<u32>), ConfigError>(found),
            Err(fault) => result is Err && result.unwrap_err()@ == fault,
        },
{
    let all: Vec<Vec<char>> = split_plus(&chars_of(name));
    let ghost pieces = texts(all@);
    let mut mods: Mods = Mods(0);
    let mut keysym: Option<u32> = None;
    let mut i: usize = 0;
    assert(pieces.skip(0) =~= pieces);
    while i < all.len()
        invariant
            i <= all@.len(),
            pieces == texts(all@),
            keys(pieces.skip(i as int), line, mods, keysym) == keys(
                pieces_from(name@, 0),
                line,
                Mods(0),
                None,
            ),
        decreases all@.len() - i,
    {
        let piece: String = string_of(&all[i]);
        proof {
            assert(pieces.skip(i as int)[0] == piece@);
            assert(pieces.skip(i as int).drop_first() =~= pieces.skip(i + 1));
        }
        match Mods::one_from_str(piece.as_str()) {
            Some(modifier) => {
                let both: u8 = mods.0 | modifier.0;
                if both == mods.0 {
                    return Err(ConfigError::DuplicateModifier { line, name: piece });
                }
                mods = Mods(both);
            },
            None => match keysym_from_str(piece.as_str()) {
                None => {
                    return Err(ConfigError::InvalidKey { line, name: piece });
                },
                Some(found) => {
                    if keysym.is_some() {
                        return Err(ConfigError::TooManyKeys { line });
                    }
                    keysym = Some(found);
                },
            },
        }
        i = i + 1;
    }
    Ok((mods, keysym))
}

/// The children of a directive as values are the values of its children.
proof fn lemma_children(directive: Directive)
    ensures
        directive_view(directive).children == directive_views(directive.children@),
        directive_view(directive).params == directive.params.deep_view(),
        directive_view(directive).name == directive.name@,
        directive_view(directive).line == directive.line,
{
    assert(directive_view(directive).children =~= directive_views(directive.children@));
}

/// The commands of a binding.
fn parse_commands(binding: &Directive) -> (result: Result<Vec<Cmd>, ConfigError>)
    ensures
        match command_names(directive_view(*binding)) {
            Err(fault) => result is Err && result.unwrap_err()@ == fault,
            Ok(names) => match commands(names, binding.line, Seq::empty()) {
                Err(fault) => result is Err && result.unwrap_err()@ == fault,
                Ok(cmds) => result is Ok && result.unwrap()@ == cmds,
            },
        },
{
    proof {
        lemma_children(*binding);
    }
    let ghost view = directive_view(*binding);
    let mut names: Vec<String> = Vec::new();
    if binding.params.len() == 0 {
        let mut i: usize = 0;
        assert(view.children.skip(0) =~= view.children);
        assert(names.deep_view() =~= Seq::<Seq<char>>::empty());
        while i < binding.children.len()
            invariant
                i <= binding.children@.len(),
                view == directive_view(*binding),
                view.children == directive_views(binding.children@),
                view.params.len() == 0,
                block_names(view.children.skip(i as int), names.deep_view()) == block_names(
                    view.children,
                    Seq::empty(),
                ),
            decreases binding.children@.len() - i,
        {
            let child: &Directive = &binding.children[i];
            let ghost so_far = names.deep_view();
            proof {
                lemma_children(*child);
                assert(view.children.skip(i as int)[0] == directive_view(*child));
                assert(view.children.skip(i as int).drop_first() =~= view.children.skip(i + 1));
            }
            if child.params.len() != 0 {
                return Err(ConfigError::ExtraParameters { line: child.line });
            }
            names.push(child.name.clone());
            assert(names.deep_view() =~= so_far.push(child.name@));
            i = i + 1;
        }
    } else if binding.children.len() != 0 {
        return Err(ConfigError::UnexpectedBlock { line: binding.line });
    } else if binding.params.len() != 1 {
        return Err(ConfigError::NotOneParameter { line: binding.line });
    } else {
        names.push(binding.params[0].clone());
        assert(names.deep_view() =~= view.params);
    }
    let ghost wanted = names.deep_view();
    let mut cmds: Vec<Cmd> = Vec::new();
    let mut i: usize = 0;
    assert(wanted.skip(0) =~= wanted);
    assert(view.children.skip(view.children.len() as int) =~= Seq::<DirectiveView>::empty());
    assert(command_names(view) == Ok::<Seq<Seq<char>>, Fault>(wanted));
    while i < names.len()
        invariant
            i <= names@.len(),
            wanted == names.deep_view(),
            view == directive_view(*binding),
            view.line == binding.line,
            command_names(view) == Ok::<Seq<Seq<char>>, Fault>(wanted),
            commands(wanted.skip(i as int), binding.line, cmds@) == commands(
                wanted,
                binding.line,
                Seq::empty(),
            ),
        decreases names@.len() - i,
    {
        proof {
            assert(wanted.skip(i as int)[0] == names@[i as int]@);
            assert(wanted.skip(i as int).drop_first() =~= wanted.skip(i + 1));
        }
        match Cmd::from_kebab_case(names[i].as_str()) {
            Some(cmd) => {
                cmds.push(cmd);
            },
            None => {
                return Err(
                    ConfigError::InvalidCommand { line: binding.line, name: names[i].clone() },
                );
            },
        }
        i = i + 1;
    }
    Ok(cmds)
}

/// The binding that a directive stands for.
pub fn parse_binding(directive: &Directive) -> (result: Result<Binding, ConfigError>)
    ensures
        match binding_of(directive_view(*directive)) {
            Ok(binding) => result is Ok && result.unwrap()@ == binding,
            Err(fault) => result is Err && result.unwrap_err()@ == fault,
        },
{
    proof {
        lemma_children(*directive);
    }
    let cmds: Vec<Cmd> = match parse_commands(directive) {
        Err(error) => {
            return Err(error);
        },
        Ok(cmds) => cmds,
    };
    match parse_keys(directive.name.as_str(), directive.line) {
        Err(error) => Err(error),
        Ok((mods, None)) => Err(ConfigError::NoKey { line: directive.line }),
        Ok((mods, Some(keysym))) => Ok(Binding { mods, keysym, cmds }),
    }
}

/// Binds a key: in the place of the binding for the same key with the same
/// modifiers, or behind the last.
pub fn rebind(list: &mut Vec<Binding>, binding: Binding)
    ensures
        binding_views(final(list)@) == rebound(binding_views(old(list)@), binding@),
{
    let ghost before = binding_views(list@);
    let ghost added = binding@;
    let mut i: usize = 0;
    assert(before.skip(0) =~= before);
    while i < list.len()
        invariant
            i <= list@.len(),
            *list == *old(list),
            before == binding_views(list@),
            added == binding@,
            bound_at(before, added.mods, added.keysym) == match bound_at(
                before.skip(i as int),
                added.mods,
                added.keysym,
            ) {
                Some(place) => Some(place + i),
                None => None,
            },
        decreases list@.len() - i,
    {
        assert(before.skip(i as int)[0] == list@[i as int]@);
        assert(before.skip(i as int).drop_first() =~= before.skip(i + 1));
        if list[i].mods.0 == binding.mods.0 && list[i].keysym == binding.keysym {
            list.set(i, binding);
            assert(binding_views(list@) =~= before.update(i as int, added));
            return ;
        }
        i = i + 1;
    }
    list.push(binding);
    assert(binding_views(list@) =~= before.push(added));
}

impl Config {
    /// The bindings of a configuration text, or what is wrong with it.
    ///
    /// Every directive at the top is to be `bindings` with a block. Each
    /// directive in the block binds a key: its name names the key and its
    /// modifiers, with plus signs between them; the command stands beside
    /// it, or several commands stand in a block of its own. A key that is
    /// bound again is bound to the later commands.
    pub fn parse(text: &str) -> (result: Result<Config, ConfigError>)
        ensures
            match configured(text@) {
                Ok(bindings) => result is Ok && binding_views(result.unwrap().bindings@)
                    == bindings,
                Err(fault) => result is Err && result.unwrap_err()@ == fault,
            },
    {
        let directives: Vec<Directive> = match parse(text) {
            Err(error) => {
                return Err(ConfigError::Syntax(error));
            },
            Ok(directives) => directives,
        };
        let ghost views = directive_views(directives@);
        let mut bindings: Vec<Binding> = Vec::new();
        let mut i: usize = 0;
        assert(views.skip(0) =~= views);
        assert(binding_views(bindings@) =~= Seq::<BindingView>::empty());
        while i < directives.len()
            invariant
                i <= directives@.len(),
                views == directive_views(directives@),
                config(text@) == Ok::<Seq<DirectiveView>, Error>(views),
                all_bindings(views.skip(i as int), binding_views(bindings@)) == all_bindings(
                    views,
                    Seq::empty(),
                ),
            decreases directives@.len() - i,
        {
            let directive: &Directive = &directives[i];
            proof {
                lemma_children(*directive);
                assert(views.skip(i as int)[0] == directive_view(*directive));
                assert(views.skip(i as int).drop_first() =~= views.skip(i + 1));
            }
            if !same_text(directive.name.as_str(), "bindings") {
                return Err(
                    ConfigError::InvalidDirective {
                        line: directive.line,
                        name: directive.name.clone(),
                    },
                );
            }
            if directive.params.len() != 0 {
                return Err(ConfigError::TooManyParameters { line: directive.line });
            }
            let ghost children = directive_views(directive.children@);
            let ghost goal = block_bindings(children, binding_views(bindings@));
            let ghost rest = views.skip(i + 1);
            let mut k: usize = 0;
            assert(children.skip(0) =~= children);
            while k < directive.children.len()
                invariant
                    k <= directive.children@.len(),
                    children == directive_views(directive.children@),
                    block_bindings(children.skip(k as int), binding_views(bindings@)) == goal,
                    config(text@) == Ok::<Seq<DirectiveView>, Error>(views),
                    all_bindings(views, Seq::empty()) == match goal {
                        Err(fault) => Err(fault),
                        Ok(bound) => all_bindings(rest, bound),
                    },
                decreases directive.children@.len() - k,
            {
                proof {
                    assert(children.skip(k as int)[0] == directive_view(
                        directive.children@[k as int],
                    ));
                    assert(children.skip(k as int).drop_first() =~= children.skip(k + 1));
                }
                match parse_binding(&directive.children[k]) {
                    Err(error) => {
                        return Err(error);
                    },
                    Ok(binding) => {
                        rebind(&mut bindings, binding);
                    },
                }
                k = k + 1;
            }
            assert(children.skip(k as int) =~= Seq::<DirectiveView>::empty());
            i = i + 1;
        }
        assert(views.skip(i as int) =~= Seq::<DirectiveView>::empty());
        Ok(Config { bindings })
    }

    /// The commands that a key with modifiers is bound to.
    pub fn lookup(&self, mods: Mods, keysym: u32) -> (cmds: Option<&Vec<Cmd>>)
        ensures
            match bound_at(binding_views(self.bindings@), mods, keysym) {
                Some(place) => cmds is Some && 0 <= place < self.bindings@.len()
                    && *cmds.unwrap() == self.bindings@[place].cmds,
                None => cmds is None,
            },
    {
        let ghost all = binding_views(self.bindings@);
        let mut i: usize = 0;
        assert(all.skip(0) =~= all);
        while i < self.bindings.len()
            invariant
                i <= self.bindings@.len(),
                all == binding_views(self.bindings@),
                bound_at(all, mods, keysym) == match bound_at(all.skip(i as int), mods, keysym) {
                    Some(place) => Some(place + i),
                    None => None,
                },
            decreases self.bindings@.len() - i,
        {
            assert(all.skip(i as int)[0] == self.bindings@[i as int]@);
            assert(all.skip(i as int).drop_first() =~= all.skip(i + 1));
            if self.bindings[i].mods.0 == mods.0 && self.bindings[i].keysym == keysym {
                return Some(&self.bindings[i].cmds);
            }
            i = i + 1;
        }
        None
    }
}

/// Whether a list of numbers holds a number.
fn holds(numbers: &Vec<u32>, number: u32) -> (held: bool)
    ensures
        held == numbers@.contains(number),
{
    let mut i: usize = 0;
    while i < numbers.len()
        invariant
            i <= numbers@.len(),
            forall|k: int| 0 <= k < i ==> numbers@[k] != number,
        decreases numbers@.len() - i,
    {
        if numbers[i] == number {
            return true;
        }
        i = i + 1;
    }
    false
}

/// The bindings that a keyboard can reach: those for the keys that one of
/// its keys gives without modifiers, in their order. `keysyms` are the keys
/// that the keys of the keyboard give.
pub fn specialize_bindings(keysyms: &Vec<u32>, config: &Config) -> (reachable: Vec<Binding>)
    ensures
        binding_views(reachable@) == binding_views(config.bindings@).filter(
            |b: BindingView| keysyms@.contains(b.keysym),
        ),
{
    let ghost all = binding_views(config.bindings@);
    let ghost pred = |b: BindingView| keysyms@.contains(b.keysym);
    let mut reachable: Vec<Binding> = Vec::new();
    let mut i: usize = 0;
    proof {
        reveal(Seq::filter);
        assert(all.take(0).filter(pred) =~= Seq::<BindingView>::empty());
        assert(binding_views(reachable@) =~= Seq::<BindingView>::empty());
    }
    while i < config.bindings.len()
        invariant
            i <= config.bindings@.len(),
            all == binding_views(config.bindings@),
            pred == (|b: BindingView| keysyms@.contains(b.keysym)),
            binding_views(reachable@) == all.take(i as int).filter(pred),
        decreases config.bindings@.len() - i,
    {
        let binding: &Binding = &config.bindings[i];
        proof {
            assert(all[i as int] == binding@);
            assert(all.take(i + 1) =~= all.take(i as int).push(all[i as int]));
            crate::prune::lemma_filter_push(all.take(i as int), all[i as int], pred);
        }
        if holds(keysyms, binding.keysym) {
            let ghost before = binding_views(reachable@);
            let mut cmds: Vec<Cmd> = Vec::new();
            let mut k: usize = 0;
            while k < binding.cmds.len()
                invariant
                    k <= binding.cmds@.len(),
                    cmds@ == binding.cmds@.take(k as int),
                decreases binding.cmds@.len() - k,
            {
                cmds.push(binding.cmds[k]);
                assert(cmds@ =~= binding.cmds@.take(k + 1));
                k = k + 1;
            }
            assert(binding.cmds@.take(k as int) =~= binding.cmds@);
            reachable.push(Binding { mods: binding.mods, keysym: binding.keysym, cmds });
            assert(binding_views(reachable@) =~= before.push(all[i as int]));
        }
        i = i + 1;
    }
    assert(all.take(i as int) =~= all);
    reachable
}

} // verus!
