//! The command palette and model picker: the built-in command table,
//! case-insensitive filtering of commands and models, parsing of a typed
//! slash command, and provider-grouped sorting of model entries.
use vstd::prelude::*;

verus! {

use vstd::string::StringSliceAdditionalSpecFns;
use vstd::relations::sorted_by;
use crate::strutil::fold;
use crate::strutil::trimmed;
use crate::strutil::trim_lo;
use crate::strutil::trim_hi;
use crate::strutil::spec_starts_with_fold;
use crate::strutil::spec_contains_fold;
use crate::strutil::lex_lt;
use crate::strutil::lemma_lex_total;

/// One entry of the command palette.
#[derive(Clone, Copy, Debug)]
pub struct CommandItem {
    /// Name typed after the slash.
    pub name: &'static str,
    /// One-letter shortcut, when the command has one.
    pub shortcut: Option<&'static str>,
    /// Human-readable description shown in the palette.
    pub description: &'static str,
    /// Action tag the key handler dispatches on.
    pub action: &'static str,
}

/// The fields of a command item, by view.
pub open spec fn cmd_is(
    c: CommandItem,
    name: &str,
    shortcut: Option<&str>,
    description: &str,
    action: &str,
) -> bool {
    &&& c.name@ == name@
    &&& match (c.shortcut, shortcut) {
        (Some(a), Some(b)) => a@ == b@,
        (None, None) => true,
        _ => false,
    }
    &&& c.description@ == description@
    &&& c.action@ == action@
}

/// The item is one of the built-in commands.
pub open spec fn cmd_in_list(c: CommandItem) -> bool {
    ||| cmd_is(c, "new", Some("n"), "Start a new session", "session:new")
    ||| cmd_is(c, "clear", Some("c"), "Clear current conversation", "session:clear")
    ||| cmd_is(c, "history", Some("h"), "View session history", "session:history")
    ||| cmd_is(c, "plan", Some("p"), "Enter plan mode", "mode:plan")
    ||| cmd_is(c, "build", Some("b"), "Exit plan mode and start building", "mode:build")
    ||| cmd_is(c, "reindex", None, "Reindex codebase for search", "tool:reindex")
    ||| cmd_is(c, "todos", Some("t"), "Show todo list", "tool:todos")
    ||| cmd_is(c, "revert", Some("r"), "Revert files to previous state", "tool:revert")
    ||| cmd_is(c, "models", Some("m"), "Change AI model", "settings:model")
    ||| cmd_is(c, "about", None, "About StratusCode", "help:about")
}

/// The built-in command table as a value, in palette order.
pub open spec fn spec_commands() -> Seq<CommandItem> {
    seq![
        CommandItem {
            name: "new",
            shortcut: Some("n"),
            description: "Start a new session",
            action: "session:new",
        },
        CommandItem {
            name: "clear",
            shortcut: Some("c"),
            description: "Clear current conversation",
            action: "session:clear",
        },
        CommandItem {
            name: "history",
            shortcut: Some("h"),
            description: "View session history",
            action: "session:history",
        },
        CommandItem { name: "plan", shortcut: Some("p"), description: "Enter plan mode", action: "mode:plan" },
        CommandItem {
            name: "build",
            shortcut: Some("b"),
            description: "Exit plan mode and start building",
            action: "mode:build",
        },
        CommandItem {
            name: "reindex",
            shortcut: None,
            description: "Reindex codebase for search",
            action: "tool:reindex",
        },
        CommandItem { name: "todos", shortcut: Some("t"), description: "Show todo list", action: "tool:todos" },
        CommandItem {
            name: "revert",
            shortcut: Some("r"),
            description: "Revert files to previous state",
            action: "tool:revert",
        },
        CommandItem {
            name: "models",
            shortcut: Some("m"),
            description: "Change AI model",
            action: "settings:model",
        },
        CommandItem { name: "about", shortcut: None, description: "About StratusCode", action: "help:about" },
    ]
}

/// The built-in command table, in palette order.
pub fn commands_list() -> (r: Vec<CommandItem>)
    ensures
        r@ == spec_commands(),
        r@.len() == 10,
        cmd_is(r@[0], "new", Some("n"), "Start a new session", "session:new"),
        cmd_is(r@[1], "clear", Some("c"), "Clear current conversation", "session:clear"),
        cmd_is(r@[2], "history", Some("h"), "View session history", "session:history"),
        cmd_is(r@[3], "plan", Some("p"), "Enter plan mode", "mode:plan"),
        cmd_is(r@[4], "build", Some("b"), "Exit plan mode and start building", "mode:build"),
        cmd_is(r@[5], "reindex", None, "Reindex codebase for search", "tool:reindex"),
        cmd_is(r@[6], "todos", Some("t"), "Show todo list", "tool:todos"),
        cmd_is(r@[7], "revert", Some("r"), "Revert files to previous state", "tool:revert"),
        cmd_is(r@[8], "models", Some("m"), "Change AI model", "settings:model"),
        cmd_is(r@[9], "about", None, "About StratusCode", "help:about"),
        forall|i: int| 0 <= i < 10 ==> cmd_in_list(#[trigger] r@[i]),
{
    proof {
        assert(spec_commands().len() == 10);
    }
    let mut r: Vec<CommandItem> = Vec::new();
    r.push(
        CommandItem {
            name: "new",
            shortcut: Some("n"),
            description: "Start a new session",
            action: "session:new",
        },
    );
    r.push(
        CommandItem {
            name: "clear",
            shortcut: Some("c"),
            description: "Clear current conversation",
            action: "session:clear",
        },
    );
    r.push(
        CommandItem {
            name: "history",
            shortcut: Some("h"),
            description: "View session history",
            action: "session:history",
        },
    );
    r.push(
        CommandItem { name: "plan", shortcut: Some("p"), description: "Enter plan mode", action: "mode:plan" },
    );
    r.push(
        CommandItem {
            name: "build",
            shortcut: Some("b"),
            description: "Exit plan mode and start building",
            action: "mode:build",
        },
    );
    r.push(
        CommandItem {
            name: "reindex",
            shortcut: None,
            description: "Reindex codebase for search",
            action: "tool:reindex",
        },
    );
    r.push(
        CommandItem { name: "todos", shortcut: Some("t"), description: "Show todo list", action: "tool:todos" },
    );
    r.push(
        CommandItem {
            name: "revert",
            shortcut: Some("r"),
            description: "Revert files to previous state",
            action: "tool:revert",
        },
    );
    r.push(
        CommandItem {
            name: "models",
            shortcut: Some("m"),
            description: "Change AI model",
            action: "settings:model",
        },
    );
    r.push(
        CommandItem { name: "about", shortcut: None, description: "About StratusCode", action: "help:about" },
    );
    proof {
        assert(r@ =~= spec_commands());
    }
    r
}

/// The documented palette match rule: the trimmed query is a
/// case-insensitive substring of the name, the description, or the
/// shortcut.
pub open spec fn cmd_matches(c: CommandItem, qt: Seq<u8>) -> bool {
    ||| spec_contains_fold(c.name.spec_bytes(), qt)
    ||| spec_contains_fold(c.description.spec_bytes(), qt)
    ||| (c.shortcut matches Some(s) && spec_contains_fold(s.spec_bytes(), qt))
}

/// Keep the commands the trimmed query matches, in order; an all-blank
/// query keeps everything.
pub fn filter_commands(commands: &[CommandItem], query: &str) -> (r: Vec<CommandItem>)
    ensures
        ({
            let qt = trimmed(query.spec_bytes());
            if qt.len() == 0 {
                r@ == commands@
            } else {
                r@ == commands@.filter(|c: CommandItem| cmd_matches(c, qt))
            }
        }),
{
    let ghost qb = query.spec_bytes();
    let (lo, hi) = crate::strutil::trim_range(query);
    if lo >= hi {
        proof {
            assert(trimmed(qb).len() == 0);
        }
        return vstd::slice::slice_to_vec(commands);
    }
    let ghost qt = trimmed(qb);
    proof {
        assert(qt == qb.subrange(lo as int, hi as int));
    }
    let mut r: Vec<CommandItem> = Vec::new();
    let n = commands.len();
    let mut i: usize = 0;
    proof {
        assert(commands@.subrange(0, 0) =~= Seq::<CommandItem>::empty());
        reveal(Seq::filter);
    }
    while i < n
        invariant
            i <= n == commands@.len(),
            lo < hi <= qb.len(),
            qb == query.spec_bytes(),
            qt == qb.subrange(lo as int, hi as int),
            r@ == commands@.subrange(0, i as int).filter(|c: CommandItem| cmd_matches(c, qt)),
        decreases n - i,
    {
        let c = commands[i];
        let hit = crate::strutil::contains_fold_win(c.name, query, lo, hi) || (
        crate::strutil::contains_fold_win(c.description, query, lo, hi)) || (match c.shortcut {
            Some(s) => crate::strutil::contains_fold_win(s, query, lo, hi),
            None => false,
        });
        proof {
            assert(hit == cmd_matches(commands@[i as int], qt));
        }
        if hit {
            r.push(c);
        }
        proof {
            reveal(Seq::filter);
            let pred = |cc: CommandItem| cmd_matches(cc, qt);
            let pre = commands@.subrange(0, i as int);
            let post = commands@.subrange(0, i + 1);
            assert(post.drop_last() =~= pre);
            assert(post.last() == commands@[i as int]);
            assert(post.filter(pred) == if pred(commands@[i as int]) {
                pre.filter(pred).push(commands@[i as int])
            } else {
                pre.filter(pred)
            });
        }
        i = i + 1;
    }
    proof {
        assert(commands@.subrange(0, n as int) =~= commands@);
    }
    r
}

/// Index just past the command name: the first space in the trimmed input,
/// or its end.
pub open spec fn name_end(t: Seq<u8>, i: int) -> int
    decreases t.len() - i,
{
    if i < 0 || i >= t.len() {
        t.len() as int
    } else if t[i] == 32u8 {
        i
    } else {
        name_end(t, i + 1)
    }
}

/// The command name a slash input carries: what stands between the slash
/// and the first space of the trimmed input.
pub open spec fn parsed_name(b: Seq<u8>) -> Seq<u8> {
    let t = trimmed(b);
    t.subrange(1, name_end(t, 1))
}

/// The argument after the command name, when a space separates one.
pub open spec fn parsed_arg(b: Seq<u8>) -> Option<Seq<u8>> {
    let t = trimmed(b);
    if name_end(t, 1) == t.len() {
        None
    } else {
        Some(t.subrange(name_end(t, 1) + 1, t.len() as int))
    }
}

/// The trimmed query names this command: it equals the name or the
/// shortcut, ignoring ASCII case.
pub open spec fn cmd_key_matches(c: CommandItem, nm: Seq<u8>) -> bool {
    ||| fold(c.name.spec_bytes()) == fold(nm)
    ||| (c.shortcut matches Some(s) && fold(s.spec_bytes()) == fold(nm))
}

/// Parse a typed slash command: `None` unless the input starts with a slash
/// and, after trimming, names a built-in command by name or shortcut; the
/// text after the first space is handed back as the argument.
pub fn parse_command(input: &str) -> (r: Option<(CommandItem, Option<String>)>)
    ensures
        ({
            let b = input.spec_bytes();
            &&& ((b.len() == 0 || b[0] != 47u8) ==> r is None)
            &&& (r matches Some(p) ==> {
                &&& b.len() > 0 && b[0] == 47u8
                &&& cmd_in_list(p.0)
                &&& cmd_key_matches(p.0, parsed_name(b))
                &&& match (p.1, parsed_arg(b)) {
                    (Some(a), Some(sa)) => vstd::utf8::encode_utf8(a@) == sa,
                    (None, None) => true,
                    _ => false,
                }
            })
            &&& ((b.len() > 0 && b[0] == 47u8 && r is None) ==> forall|c: CommandItem|
                cmd_in_list(c) ==> !cmd_key_matches(c, parsed_name(b)))
        }),
{
    let ghost b = input.spec_bytes();
    let bs = input.as_bytes();
    if bs.len() == 0 || bs[0] != 47 {
        return None;
    }
    broadcast use vstd::utf8::group_utf8_lib;

    let (lo, hi) = crate::strutil::trim_range(input);
    proof {
        assert(!crate::strutil::is_space(b[0]));
        assert(trim_lo(b, 0) == 0);
        assert(trim_hi(b, b.len() as int) >= 1) by {
            crate::strutil::lemma_trim_hi_spaces(b, b.len() as int);
            if trim_hi(b, b.len() as int) == 0 {
                assert(crate::strutil::is_space(b[0]));
            }
        }
        assert(trimmed(b) == b.subrange(0, hi as int));
    }
    let ghost t = trimmed(b);
    // find the end of the command name: the first space of the trimmed input
    let mut ne: usize = 1;
    while ne < hi && bs[ne] != 32
        invariant
            1 <= ne <= hi,
            hi <= b.len() == bs@.len(),
            b == input.spec_bytes(),
            b == bs@,
            t == b.subrange(0, hi as int),
            name_end(t, 1) == name_end(t, ne as int),
        decreases hi - ne,
    {
        proof {
            assert(t[ne as int] == b[ne as int]);
        }
        ne = ne + 1;
    }
    proof {
        if ne < hi {
            assert(t[ne as int] == b[ne as int]);
        }
        assert(name_end(t, ne as int) == ne);
        assert(parsed_name(b) == t.subrange(1, ne as int));
        assert(t.subrange(1, ne as int) =~= b.subrange(1, ne as int));
    }
    // look the name up among the built-in commands
    let cs = commands_list();
    let mut j: usize = 0;
    let mut found: Option<CommandItem> = None;
    while j < cs.len()
        invariant
            j <= cs@.len() == 10,
            b == input.spec_bytes(),
            1 <= ne <= hi <= b.len(),
            parsed_name(b) == b.subrange(1, ne as int),
            forall|i: int| 0 <= i < 10 ==> cmd_in_list(#[trigger] cs@[i]),
            found matches Some(c) ==> cmd_in_list(c) && cmd_key_matches(c, parsed_name(b)),
            found is None ==> forall|i: int|
                0 <= i < j ==> !cmd_key_matches(#[trigger] cs@[i], parsed_name(b)),
        decreases cs@.len() - j,
    {
        if found.is_none() {
            let c = cs[j];
            let hit = crate::strutil::eq_fold_win(c.name, input, 1, ne) || (match c.shortcut {
                Some(s) => crate::strutil::eq_fold_win(s, input, 1, ne),
                None => false,
            });
            proof {
                assert(hit == cmd_key_matches(cs@[j as int], parsed_name(b)));
            }
            if hit {
                found = Some(c);
            }
        }
        j = j + 1;
    }
    let c = match found {
        Some(c) => c,
        None => {
            proof {
                assert forall|c: CommandItem| cmd_in_list(c) implies !cmd_key_matches(
                    c,
                    parsed_name(b),
                ) by {
                    if cmd_key_matches(c, parsed_name(b)) {
                        assert(exists|i: int|
                            0 <= i < 10 && cmd_key_matches(#[trigger] cs@[i], parsed_name(b))) by {
                            if cmd_is(c, "new", Some("n"), "Start a new session", "session:new") {
                                assert(cmd_key_matches(cs@[0], parsed_name(b)));
                            } else if cmd_is(c, "clear", Some("c"), "Clear current conversation", "session:clear") {
                                assert(cmd_key_matches(cs@[1], parsed_name(b)));
                            } else if cmd_is(c, "history", Some("h"), "View session history", "session:history") {
                                assert(cmd_key_matches(cs@[2], parsed_name(b)));
                            } else if cmd_is(c, "plan", Some("p"), "Enter plan mode", "mode:plan") {
                                assert(cmd_key_matches(cs@[3], parsed_name(b)));
                            } else if cmd_is(c, "build", Some("b"), "Exit plan mode and start building", "mode:build") {
                                assert(cmd_key_matches(cs@[4], parsed_name(b)));
                            } else if cmd_is(c, "reindex", None, "Reindex codebase for search", "tool:reindex") {
                                assert(cmd_key_matches(cs@[5], parsed_name(b)));
                            } else if cmd_is(c, "todos", Some("t"), "Show todo list", "tool:todos") {
                                assert(cmd_key_matches(cs@[6], parsed_name(b)));
                            } else if cmd_is(c, "revert", Some("r"), "Revert files to previous state", "tool:revert") {
                                assert(cmd_key_matches(cs@[7], parsed_name(b)));
                            } else if cmd_is(c, "models", Some("m"), "Change AI model", "settings:model") {
                                assert(cmd_key_matches(cs@[8], parsed_name(b)));
                            } else {
                                assert(cmd_key_matches(cs@[9], parsed_name(b)));
                            }
                        }
                    }
                }
            }
            return None;
        },
    };
    // split the argument off after the first space
    if ne == hi {
        proof {
            assert(name_end(t, 1) == t.len());
            assert(parsed_arg(b) is None);
        }
        return Some((c, None));
    }
    proof {
        // the space before the argument and the trim bound are boundaries
        assert(b[ne as int] == 32u8);
        assert(vstd::utf8::is_char_boundary(b, ne as int)) by {
            vstd::utf8::is_char_boundary_iff_not_is_continuation_byte(b, ne as int);
        }
        crate::editor::lemma_char_width_facts(b, ne as int);
        assert(vstd::utf8::length_of_first_scalar(b.subrange(ne as int, b.len() as int)) == 1);
        assert(vstd::utf8::is_char_boundary(b, ne + 1));
        assert(vstd::utf8::is_char_boundary(b, hi as int)) by {
            if hi < b.len() {
                crate::strutil::lemma_trim_hi_spaces(b, b.len() as int);
                assert(crate::strutil::is_space(b[hi as int]));
                vstd::utf8::is_char_boundary_iff_not_is_continuation_byte(b, hi as int);
            }
        }
    }
    let (_, rest) = input.split_at(ne + 1);
    let ghost rb = b.subrange(ne + 1, b.len() as int);
    proof {
        assert(rest.spec_bytes() == rb);
        assert(vstd::utf8::is_char_boundary(rb, hi - (ne + 1))) by {
            if (hi as int) < b.len() {
                assert(rb[hi - (ne + 1)] == b[hi as int]);
                vstd::utf8::is_char_boundary_iff_not_is_continuation_byte(b, hi as int);
                vstd::utf8::is_char_boundary_iff_not_is_continuation_byte(rb, hi - (ne + 1));
            }
        }
    }
    let (arg, _) = rest.split_at(hi - (ne + 1));
    let a = arg.to_owned();
    proof {
        assert(arg.spec_bytes() =~= rb.subrange(0, hi - (ne + 1)));
        assert(rb.subrange(0, hi - (ne + 1)) =~= b.subrange(ne + 1, hi as int));
        assert(name_end(t, 1) == ne && ne < t.len());
        assert(parsed_arg(b) matches Some(sa) && sa =~= b.subrange(ne + 1, hi as int)) by {
            assert(t.subrange(ne + 1, t.len() as int) =~= b.subrange(ne + 1, hi as int));
        }
        assert(vstd::utf8::encode_utf8(a@) == arg.spec_bytes());
    }
    Some((c, Some(a)))
}

/// One selectable model, as the worker's model list describes it.
#[derive(Debug)]
pub struct ModelEntry {
    /// Identifier sent to the worker on selection.
    pub id: String,
    /// Display name.
    pub name: String,
    /// Whether the model is free to use.
    pub free: Option<bool>,
    /// Provider to select along with the model, when one is named.
    pub provider_key: Option<String>,
    /// Provider group the entry is listed under.
    pub group: String,
    /// Whether the model supports reasoning effort.
    pub reasoning: Option<bool>,
}

impl Clone for ModelEntry {
    /// A clone carries the same field values.
    fn clone(&self) -> (r: Self)
        ensures
            r == *self,
    {
        ModelEntry {
            id: self.id.clone(),
            name: self.name.clone(),
            free: self.free,
            provider_key: match &self.provider_key {
                Some(p) => Some(p.clone()),
                None => None,
            },
            group: self.group.clone(),
            reasoning: self.reasoning,
        }
    }
}

/// The documented model match rule: the trimmed query is a case-insensitive
/// substring of the name, the id, the group, or the provider key.
pub open spec fn model_matches(e: ModelEntry, qt: Seq<u8>) -> bool {
    ||| spec_contains_fold(vstd::utf8::encode_utf8(e.name@), qt)
    ||| spec_contains_fold(vstd::utf8::encode_utf8(e.id@), qt)
    ||| spec_contains_fold(vstd::utf8::encode_utf8(e.group@), qt)
    ||| (e.provider_key matches Some(p) && spec_contains_fold(vstd::utf8::encode_utf8(p@), qt))
}

/// Keep the models the trimmed query matches, in order; an all-blank query
/// keeps everything.
pub fn filter_models(entries: &[ModelEntry], query: &str) -> (r: Vec<ModelEntry>)
    ensures
        ({
            let qt = trimmed(query.spec_bytes());
            if qt.len() == 0 {
                r@ == entries@
            } else {
                r@ == entries@.filter(|e: ModelEntry| model_matches(e, qt))
            }
        }),
{
    let ghost qb = query.spec_bytes();
    let (lo, hi) = crate::strutil::trim_range(query);
    let n = entries.len();
    let ghost qt = trimmed(qb);
    let blank = lo >= hi;
    proof {
        if blank {
            assert(qt.len() == 0);
        } else {
            assert(qt == qb.subrange(lo as int, hi as int));
        }
        assert(entries@.subrange(0, 0) =~= Seq::<ModelEntry>::empty());
        reveal(Seq::filter);
    }
    let mut r: Vec<ModelEntry> = Vec::new();
    let mut i: usize = 0;
    while i < n
        invariant
            i <= n == entries@.len(),
            blank ==> r@ == entries@.subrange(0, i as int),
            !blank ==> lo < hi <= qb.len(),
            qb == query.spec_bytes(),
            blank == (qt.len() == 0),
            !blank ==> qt == qb.subrange(lo as int, hi as int),
            !blank ==> r@ == entries@.subrange(0, i as int).filter(
                |e: ModelEntry| model_matches(e, qt),
            ),
        decreases n - i,
    {
        let e = &entries[i];
        if blank {
            r.push(e.clone());
            proof {
                assert(r@ =~= entries@.subrange(0, i + 1));
            }
        } else {
            let hit = crate::strutil::contains_fold_win(e.name.as_str(), query, lo, hi) || (
            crate::strutil::contains_fold_win(e.id.as_str(), query, lo, hi)) || (
            crate::strutil::contains_fold_win(e.group.as_str(), query, lo, hi)) || (
            match &e.provider_key {
                Some(p) => crate::strutil::contains_fold_win(p.as_str(), query, lo, hi),
                None => false,
            });
            proof {
                assert(hit == model_matches(entries@[i as int], qt));
            }
            if hit {
                r.push(e.clone());
            }
            proof {
                reveal(Seq::filter);
                let pred = |ee: ModelEntry| model_matches(ee, qt);
                let pre = entries@.subrange(0, i as int);
                let post = entries@.subrange(0, i + 1);
                assert(post.drop_last() =~= pre);
                assert(post.last() == entries@[i as int]);
                assert(post.filter(pred) == if pred(entries@[i as int]) {
                    pre.filter(pred).push(entries@[i as int])
                } else {
                    pre.filter(pred)
                });
            }
        }
        i = i + 1;
    }
    proof {
        assert(entries@.subrange(0, n as int) =~= entries@);
    }
    r
}

/// Whether a group name is the provider group sorted first, ignoring case.
pub open spec fn is_openai(g: Seq<u8>) -> bool {
    fold(g) == seq![111u8, 112u8, 101u8, 110u8, 97u8, 105u8]
}

/// The ordering of the model picker: the first-class provider group comes
/// first, then groups in byte order, then names in byte order within a
/// group.
pub open spec fn model_le(a: ModelEntry, b: ModelEntry) -> bool {
    let ga = vstd::utf8::encode_utf8(a.group@);
    let gb = vstd::utf8::encode_utf8(b.group@);
    if is_openai(ga) != is_openai(gb) {
        is_openai(ga)
    } else if ga != gb {
        lex_lt(ga, gb)
    } else {
        !lex_lt(vstd::utf8::encode_utf8(b.name@), vstd::utf8::encode_utf8(a.name@))
    }
}

/// Lexicographic order never holds both ways.
pub proof fn lemma_lex_asym(a: Seq<u8>, b: Seq<u8>)
    ensures
        !(lex_lt(a, b) && lex_lt(b, a)),
    decreases a.len(),
{
    if a.len() > 0 && b.len() > 0 && a[0] == b[0] {
        lemma_lex_asym(a.drop_first(), b.drop_first());
    }
}

/// Lexicographic order chains.
pub proof fn lemma_lex_trans(a: Seq<u8>, b: Seq<u8>, c: Seq<u8>)
    requires
        lex_lt(a, b),
        lex_lt(b, c),
    ensures
        lex_lt(a, c),
    decreases b.len(),
{
    if a.len() == 0 {
    } else {
        if a[0] == b[0] && b[0] == c[0] {
            lemma_lex_trans(a.drop_first(), b.drop_first(), c.drop_first());
        }
    }
}

/// The model ordering is a total preorder.
pub proof fn lemma_model_le_total(a: ModelEntry, b: ModelEntry)
    ensures
        model_le(a, b) || model_le(b, a),
{
    let ga = vstd::utf8::encode_utf8(a.group@);
    let gb = vstd::utf8::encode_utf8(b.group@);
    lemma_lex_total(ga, gb);
    lemma_lex_asym(vstd::utf8::encode_utf8(a.name@), vstd::utf8::encode_utf8(b.name@));
}

/// The model ordering chains.
pub proof fn lemma_model_le_trans(a: ModelEntry, b: ModelEntry, c: ModelEntry)
    requires
        model_le(a, b),
        model_le(b, c),
    ensures
        model_le(a, c),
{
    let ga = vstd::utf8::encode_utf8(a.group@);
    let gb = vstd::utf8::encode_utf8(b.group@);
    let gc = vstd::utf8::encode_utf8(c.group@);
    let na = vstd::utf8::encode_utf8(a.name@);
    let nb = vstd::utf8::encode_utf8(b.name@);
    let nc = vstd::utf8::encode_utf8(c.name@);
    if is_openai(ga) == is_openai(gb) && is_openai(gb) == is_openai(gc) {
        if ga != gb && gb != gc {
            if ga == gc {
                lemma_lex_asym(ga, gb);
            } else {
                lemma_lex_trans(ga, gb, gc);
            }
        } else if ga == gb && gb == gc {
            if lex_lt(nc, na) {
                lemma_lex_total(na, nb);
                lemma_lex_total(nb, nc);
                if lex_lt(na, nb) {
                    lemma_lex_trans(nc, na, nb);
                } else if na == nb {
                } else {
                    lemma_lex_asym(na, nb);
                }
                if lex_lt(nb, nc) {
                    lemma_lex_trans(nb, nc, na);
                    lemma_lex_asym(na, nb);
                }
            }
        }
    }
}

/// Decide the model ordering.
fn model_le_exec(a: &ModelEntry, b: &ModelEntry) -> (r: bool)
    ensures
        r == model_le(*a, *b),
{
    let ao = is_openai_exec(a.group.as_str());
    let bo = is_openai_exec(b.group.as_str());
    if ao != bo {
        return ao;
    }
    let gne = !group_eq(a, b);
    if gne {
        crate::strutil::lex_lt_exec(a.group.as_str(), b.group.as_str())
    } else {
        !crate::strutil::lex_lt_exec(b.name.as_str(), a.name.as_str())
    }
}

/// Byte equality of two entries' groups.
fn group_eq(a: &ModelEntry, b: &ModelEntry) -> (r: bool)
    ensures
        r == (vstd::utf8::encode_utf8(a.group@) == vstd::utf8::encode_utf8(b.group@)),
{
    let ab = a.group.as_str().as_bytes();
    let bb = b.group.as_str().as_bytes();
    let an = ab.len();
    let bn = bb.len();
    if an != bn {
        return false;
    }
    let mut i: usize = 0;
    while i < an
        invariant
            i <= an == ab@.len(),
            an == bn == bb@.len(),
            ab@ == vstd::utf8::encode_utf8(a.group@),
            bb@ == vstd::utf8::encode_utf8(b.group@),
            forall|q: int| 0 <= q < i ==> ab@[q] == bb@[q],
        decreases an - i,
    {
        if ab[i] != bb[i] {
            return false;
        }
        i = i + 1;
    }
    proof {
        assert(ab@ =~= bb@);
    }
    true
}

/// Whether the group is the first-class provider group, ignoring case.
fn is_openai_exec(g: &str) -> (r: bool)
    ensures
        r == is_openai(g.spec_bytes()),
{
    let bs = g.as_bytes();
    let ghost fg = fold(g.spec_bytes());
    let ghost w = seq![111u8, 112u8, 101u8, 110u8, 97u8, 105u8];
    if bs.len() != 6 {
        proof {
            assert(fg.len() != w.len());
        }
        return false;
    }
    let r = bs[0] == 111 && bs[1] == 112 && bs[2] == 101 && bs[3] == 110 && (bs[4] == 97 || bs[4]
        == 65) && bs[5] == 105 || (bs[0] == 79 || bs[0] == 111) && (bs[1] == 80 || bs[1] == 112)
        && (bs[2] == 69 || bs[2] == 101) && (bs[3] == 78 || bs[3] == 110) && (bs[4] == 65 || bs[4]
        == 97) && (bs[5] == 73 || bs[5] == 105);
    proof {
        assert(forall|j: int| 0 <= j < 6 ==> fg[j] == crate::strutil::fold_byte(bs@[j]));
        if r {
            assert(fg =~= w);
        } else {
            if fg == w {
                assert(crate::strutil::fold_byte(bs@[0]) == 111);
                assert(crate::strutil::fold_byte(bs@[1]) == 112);
                assert(crate::strutil::fold_byte(bs@[2]) == 101);
                assert(crate::strutil::fold_byte(bs@[3]) == 110);
                assert(crate::strutil::fold_byte(bs@[4]) == 97);
                assert(crate::strutil::fold_byte(bs@[5]) == 105);
            }
        }
    }
    r
}

/// Sort model entries for the picker: a permutation of the input, ordered
/// with the first-class provider group first, remaining groups in byte
/// order, and names in byte order within each group.
pub fn sort_models_by_provider(entries: &[ModelEntry]) -> (r: Vec<ModelEntry>)
    ensures
        r@.to_multiset() == entries@.to_multiset(),
        sorted_by(r@, |a: ModelEntry, b: ModelEntry| model_le(a, b)),
{
    let ghost le = |a: ModelEntry, b: ModelEntry| model_le(a, b);
    let mut r: Vec<ModelEntry> = Vec::new();
    let n = entries.len();
    let mut i: usize = 0;
    proof {
        broadcast use vstd::seq_lib::group_seq_lib_default;

        assert(entries@.subrange(0, 0) =~= Seq::<ModelEntry>::empty());
        assert(Seq::<ModelEntry>::empty().to_multiset() =~= r@.to_multiset());
    }
    while i < n
        invariant
            i <= n == entries@.len(),
            r@.len() == i,
            r@.to_multiset() == entries@.subrange(0, i as int).to_multiset(),
            sorted_by(r@, |a: ModelEntry, b: ModelEntry| model_le(a, b)),
        decreases n - i,
    {
        let x = entries[i].clone();
        let mut pos: usize = 0;
        while pos < r.len() && model_le_exec(&r[pos], &x)
            invariant
                pos <= r@.len(),
                forall|k: int| 0 <= k < pos ==> model_le(#[trigger] r@[k], x),
            decreases r@.len() - pos,
        {
            pos = pos + 1;
        }
        proof {
            let le2 = |a: ModelEntry, b: ModelEntry| model_le(a, b);
            let old_r = r@;
            let nr = r@.insert(pos as int, x);
            // the inserted element orders against both sides
            if (pos as int) < r@.len() {
                lemma_model_le_total(r@[pos as int], x);
            }
            assert forall|a: int, b: int| 0 <= a < b < nr.len() implies le2(nr[a], nr[b]) by {
                if b < pos {
                    assert(le2(old_r[a], old_r[b]));
                } else if a > pos {
                    assert(le2(old_r[a - 1], old_r[b - 1]));
                } else if a < pos && b == pos {
                    assert(le2(old_r[a], x));
                } else if a == pos && b > pos {
                    assert(!le2(old_r[pos as int], x));
                    assert(le2(x, old_r[pos as int]));
                    if b - 1 > pos {
                        assert(le2(old_r[pos as int], old_r[b - 1]));
                        lemma_model_le_trans(x, old_r[pos as int], old_r[b - 1]);
                    }
                } else if a < pos && b > pos {
                    assert(le2(old_r[a], old_r[b - 1]));
                }
            }
            assert(sorted_by(nr, le2));
            // the insertion adds exactly the new element to the bag
            assert(nr.remove(pos as int) =~= old_r);
            broadcast use vstd::seq_lib::group_to_multiset_ensures;

            assert(nr.remove(pos as int).to_multiset() =~= nr.to_multiset().remove(
                nr[pos as int],
            ));
            assert(nr.to_multiset().contains(x)) by {
                assert(nr[pos as int] == x);
                assert(nr.contains(x));
            }
            assert(nr.to_multiset() =~= old_r.to_multiset().insert(x));
            assert(entries@.subrange(0, i + 1).drop_last() =~= entries@.subrange(0, i as int));
            assert(entries@.subrange(0, i + 1) =~= entries@.subrange(0, i as int).push(
                entries@[i as int],
            ));
            assert(entries@.subrange(0, i + 1).to_multiset() =~= entries@.subrange(
                0,
                i as int,
            ).to_multiset().insert(entries@[i as int]));
        }
        r.insert(pos, x);
        i = i + 1;
    }
    proof {
        assert(entries@.subrange(0, n as int) =~= entries@);
    }
    r
}

/// Law: in the sorted model list every entry of the first-class provider
/// group stands before every other entry, and entries that share a group
/// are ordered by name.
pub proof fn lemma_sorted_groups(s: Seq<ModelEntry>)
    requires
        sorted_by(s, |a: ModelEntry, b: ModelEntry| model_le(a, b)),
    ensures
        forall|i: int, j: int|
            0 <= i < j < s.len() && is_openai(
                vstd::utf8::encode_utf8(#[trigger] s[j].group@),
            ) ==> is_openai(vstd::utf8::encode_utf8(#[trigger] s[i].group@)),
        forall|i: int, j: int|
            0 <= i < j < s.len() && #[trigger] s[i].group@ == #[trigger] s[j].group@ ==> !lex_lt(
                vstd::utf8::encode_utf8(s[j].name@),
                vstd::utf8::encode_utf8(s[i].name@),
            ),
{
    let le = |a: ModelEntry, b: ModelEntry| model_le(a, b);
    assert forall|i: int, j: int|
        0 <= i < j < s.len() && is_openai(
            vstd::utf8::encode_utf8(#[trigger] s[j].group@),
        ) implies is_openai(vstd::utf8::encode_utf8(#[trigger] s[i].group@)) by {
        assert(le(s[i], s[j]));
    }
    assert forall|i: int, j: int|
        0 <= i < j < s.len() && #[trigger] s[i].group@ == #[trigger] s[j].group@ implies !lex_lt(
        vstd::utf8::encode_utf8(s[j].name@),
        vstd::utf8::encode_utf8(s[i].name@),
    ) by {
        assert(le(s[i], s[j]));
    }
}

} // verus!
