//! The installer's core: updating the hook list of a host settings
//! document so that it holds exactly one registration entry for this tool,
//! leaving every other entry alone.
//!
//! The on-disk document is read and written by the surrounding program;
//! this module owns the list transformation and its laws.

use vstd::prelude::*;
use vstd::string::StringExecFns;
use crate::text::{has_substr, str_contains, str_eq};

verus! {

/// One registered hook command of the host settings document.
pub struct HookCommand {
    pub command_type: String,
    pub command: String,
}

/// One entry of the host's pre-tool-use hook list: a tool-name matcher and
/// the commands to run.
pub struct HookMatcher {
    pub matcher: String,
    pub hooks: Vec<HookCommand>,
}

/// The substring by which this tool recognizes its own registration entry.
pub open spec fn tool_marker() -> Seq<char> {
    "ts-hook-validator"@
}

/// The entry registers this tool: it matches the edit tool and one of its
/// commands mentions the tool's executable.
pub open spec fn is_own_entry(m: HookMatcher) -> bool {
    m.matcher@ == "Edit"@ && exists|i: int|
        0 <= i < m.hooks@.len() && has_substr(#[trigger] m.hooks@[i].command@, tool_marker())
}

/// The hook list with every entry of this tool removed.
pub open spec fn without_own(s: Seq<HookMatcher>) -> Seq<HookMatcher> {
    s.filter(|e: HookMatcher| !is_own_entry(e))
}

/// What one run of install leaves behind: the foreign entries of `s`, in
/// order, then a single fresh entry whose one command is `cmd`.
pub open spec fn installed(s: Seq<HookMatcher>, r: Seq<HookMatcher>, cmd: Seq<char>) -> bool {
    &&& r.len() == without_own(s).len() + 1
    &&& r.drop_last() == without_own(s)
    &&& r.last().matcher@ == "Edit"@
    &&& r.last().hooks@.len() == 1
    &&& r.last().hooks@[0].command_type@ == "command"@
    &&& r.last().hooks@[0].command@ == cmd
}

/// The observable content of a command: its type and command texts.
pub open spec fn command_model(c: HookCommand) -> (Seq<char>, Seq<char>) {
    (c.command_type@, c.command@)
}

/// The observable content of an entry: its matcher text and its commands.
pub open spec fn entry_model(m: HookMatcher) -> (Seq<char>, Seq<(Seq<char>, Seq<char>)>) {
    (m.matcher@, m.hooks@.map_values(|c: HookCommand| command_model(c)))
}

/// The observable content of a whole hook list.
pub open spec fn entries_model(s: Seq<HookMatcher>) -> Seq<(Seq<char>, Seq<(Seq<char>, Seq<char>)>)> {
    s.map_values(|m: HookMatcher| entry_model(m))
}

/// Removing this tool's entries leaves a list in which every entry is
/// foreign.
proof fn lemma_without_own_unfold(s: Seq<HookMatcher>)
    requires
        s.len() > 0,
    ensures
        without_own(s) == if !is_own_entry(s.last()) {
            without_own(s.drop_last()).push(s.last())
        } else {
            without_own(s.drop_last())
        },
{
    reveal_with_fuel(Seq::filter, 2);
}

/// Filtering a list in which no entry is this tool's changes nothing.
proof fn lemma_without_own_all_foreign(s: Seq<HookMatcher>)
    requires
        forall|i: int| 0 <= i < s.len() ==> !is_own_entry(#[trigger] s[i]),
    ensures
        without_own(s) == s,
    decreases s.len(),
{
    reveal_with_fuel(Seq::filter, 2);
    if s.len() == 0 {
        assert(without_own(s) =~= s);
    } else {
        lemma_without_own_all_foreign(s.drop_last());
        lemma_without_own_unfold(s);
        assert(!is_own_entry(s[s.len() - 1]));
        assert(without_own(s.drop_last()).push(s.last()) =~= s);
    }
}

/// Every entry that the filter keeps is foreign.
proof fn lemma_without_own_members(s: Seq<HookMatcher>)
    ensures
        forall|i: int|
            0 <= i < without_own(s).len() ==> !is_own_entry(#[trigger] without_own(s)[i]),
    decreases s.len(),
{
    reveal_with_fuel(Seq::filter, 2);
    if s.len() == 0 {
    } else {
        lemma_without_own_members(s.drop_last());
        lemma_without_own_unfold(s);
    }
}

/// Decides whether `m` is this tool's registration entry.
fn is_own_entry_exec(m: &HookMatcher) -> (r: bool)
    ensures
        r == is_own_entry(*m),
{
    if !str_eq(m.matcher.as_str(), "Edit") {
        return false;
    }
    let n = m.hooks.len();
    let mut i: usize = 0;
    while i < n
        invariant
            i <= n,
            n == m.hooks@.len(),
            m.matcher@ == "Edit"@,
            forall|j: int| 0 <= j < i ==> !has_substr(#[trigger] m.hooks@[j].command@, tool_marker()),
        decreases n - i,
    {
        if str_contains(m.hooks[i].command.as_str(), "ts-hook-validator") {
            return true;
        }
        i = i + 1;
    }
    false
}

/// Some entry of the list already registers this tool.
pub open spec fn has_own_entry(s: Seq<HookMatcher>) -> bool {
    exists|i: int| 0 <= i < s.len() && is_own_entry(#[trigger] s[i])
}

/// Decides whether the hook list already carries a registration entry for
/// this tool.
pub fn has_registration(entries: &Vec<HookMatcher>) -> (r: bool)
    ensures
        r == has_own_entry(entries@),
{
    let n = entries.len();
    let mut i: usize = 0;
    while i < n
        invariant
            i <= n,
            n == entries@.len(),
            forall|j: int| 0 <= j < i ==> !is_own_entry(#[trigger] entries@[j]),
        decreases n - i,
    {
        if is_own_entry_exec(&entries[i]) {
            return true;
        }
        i = i + 1;
    }
    false
}

/// Install-or-replace: drops every entry of this tool from the list, then
/// appends one fresh entry whose single command is `command`.
pub fn install_entry(entries: Vec<HookMatcher>, command: String) -> (r: Vec<HookMatcher>)
    ensures
        installed(entries@, r@, command@),
{
    let ghost orig = entries@;
    let mut rest = entries;
    let mut out: Vec<HookMatcher> = Vec::new();
    let ghost mut seen: int = 0;
    while rest.len() > 0
        invariant
            0 <= seen <= orig.len(),
            rest@ == orig.skip(seen),
            out@ == without_own(orig.take(seen)),
        decreases rest@.len(),
    {
        let e = rest.remove(0);
        proof {
            assert(e == orig[seen]);
            assert(rest@ =~= orig.skip(seen + 1));
            let t1 = orig.take(seen + 1);
            assert(t1.drop_last() =~= orig.take(seen));
            assert(t1.last() == orig[seen]);
            lemma_without_own_unfold(t1);
        }
        if !is_own_entry_exec(&e) {
            out.push(e);
        }
        proof {
            seen = seen + 1;
        }
    }
    proof {
        assert(orig.take(orig.len() as int) =~= orig);
    }
    let entry = HookMatcher {
        matcher: String::from_str("Edit"),
        hooks: vec![HookCommand {
            command_type: String::from_str("command"),
            command,
        }],
    };
    out.push(entry);
    proof {
        assert(out@.drop_last() =~= without_own(orig));
    }
    out
}

/// Installing leaves exactly one entry for this tool: the appended entry is
/// this tool's (its command names the executable), and every other entry of
/// the result is foreign.
pub proof fn lemma_install_unique(s: Seq<HookMatcher>, r: Seq<HookMatcher>, cmd: Seq<char>)
    requires
        has_substr(cmd, tool_marker()),
        installed(s, r, cmd),
    ensures
        is_own_entry(r.last()),
        forall|i: int| 0 <= i < r.len() - 1 ==> !is_own_entry(#[trigger] r[i]),
{
    assert(has_substr(r.last().hooks@[0].command@, tool_marker()));
    lemma_without_own_members(s);
    assert forall|i: int| 0 <= i < r.len() - 1 implies !is_own_entry(#[trigger] r[i]) by {
        assert(r[i] == r.drop_last()[i]);
        assert(r.drop_last()[i] == without_own(s)[i]);
    }
}

/// Installing twice with the same command is the same as installing once:
/// the second run removes exactly the entry the first run appended and
/// appends an entry with the same content, so the document's hook list is
/// unchanged in every observable field.
pub proof fn lemma_install_idempotent(
    s: Seq<HookMatcher>,
    r: Seq<HookMatcher>,
    r2: Seq<HookMatcher>,
    cmd: Seq<char>,
)
    requires
        has_substr(cmd, tool_marker()),
        installed(s, r, cmd),
        installed(r, r2, cmd),
    ensures
        entries_model(r2) == entries_model(r),
{
    lemma_install_unique(s, r, cmd);
    assert(r =~= r.drop_last().push(r.last()));
    lemma_without_own_unfold(r.drop_last().push(r.last()));
    assert(r.drop_last().push(r.last()).drop_last() =~= r.drop_last());
    lemma_without_own_members(s);
    lemma_without_own_all_foreign(without_own(s));
    assert(without_own(r) == without_own(s));
    assert(r2.drop_last() == r.drop_last());
    assert(entry_model(r2.last()).1 =~= entry_model(r.last()).1);
    assert(entry_model(r2.last()) == entry_model(r.last()));
    assert forall|i: int| 0 <= i < r2.len() implies entries_model(r2)[i] == entries_model(r)[i] by {
        if i < r2.len() - 1 {
            assert(r2[i] == r2.drop_last()[i]);
            assert(r[i] == r.drop_last()[i]);
        } else {
            assert(r2[i] == r2.last());
            assert(r[i] == r.last());
        }
    }
    assert(entries_model(r2) =~= entries_model(r));
}

} // verus!
