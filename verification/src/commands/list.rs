//! `kit list`: how each configured tool is described.

use vstd::prelude::*;
use crate::config::Tool;

verus! {

/// Texts joined by `", "`.
pub open spec fn comma_joined(items: Seq<Seq<char>>) -> Seq<char>
    decreases items.len(),
{
    if items.len() == 0 {
        Seq::empty()
    } else if items.len() == 1 {
        items[0]
    } else {
        comma_joined(items.drop_last()) + ", "@ + items.last()
    }
}

/// ` [aliases: a, b]`, or nothing where there are no aliases.
pub open spec fn aliases_note(aliases: Seq<Seq<char>>) -> Seq<char> {
    if aliases.len() == 0 {
        Seq::empty()
    } else {
        " [aliases: "@ + comma_joined(aliases) + "]"@
    }
}

/// How a tool is described in the list: `brew`, `mise@<version or latest>` or
/// `curl (<binary>)`, followed by its aliases.
pub open spec fn tool_description_text(tool: Tool) -> Seq<char> {
    match tool {
        Tool::Brew { .. } => "brew"@ + aliases_note(tool.alias_names()),
        Tool::Mise { version, .. } => "mise@"@ + match version {
            Some(v) => v@,
            None => "latest"@,
        } + aliases_note(tool.alias_names()),
        Tool::Curl { binary, .. } => "curl ("@ + binary@ + ")"@ + aliases_note(tool.alias_names()),
    }
}

/// Appends the aliases note for `aliases` to `r`.
fn push_aliases_note(r: &mut String, aliases: &[String])
    ensures
        final(r)@ == old(r)@ + aliases_note(aliases.deep_view()),
{
    if aliases.len() == 0 {
        assert(aliases.deep_view() =~= Seq::<Seq<char>>::empty());
        return;
    }
    let ghost start = r@;
    r.push_str(" [aliases: ");
    let ghost head = r@;
    let mut i: usize = 0;
    while i < aliases.len()
        invariant
            i <= aliases.len(),
            head == start + " [aliases: "@,
            r@ == head + comma_joined(aliases.deep_view().take(i as int)),
        decreases aliases.len() - i,
    {
        let ghost before = r@;
        assert(aliases.deep_view().take(i + 1).drop_last() =~= aliases.deep_view().take(i as int));
        if i > 0 {
            r.push_str(", ");
        }
        r.push_str(aliases[i].as_str());
        i = i + 1;
        assert(i == 1 ==> aliases.deep_view().take(i as int)[0] == aliases@[0]@);
        assert(i == 1 ==> before =~= head);
        assert(aliases.deep_view().take(i as int).last() == aliases@[i - 1]@);
        assert(r@ =~= head + comma_joined(aliases.deep_view().take(i as int)));
    }
    assert(aliases.deep_view().take(aliases.len() as int) =~= aliases.deep_view());
    r.push_str("]");
}

/// How a tool is described in the list (see `tool_description_text`).
pub fn tool_description(tool: &Tool) -> (r: String)
    ensures
        r@ == tool_description_text(*tool),
{
    let aliases = tool.aliases();
    match tool {
        Tool::Brew { .. } => {
            let mut r = "brew".to_owned();
            push_aliases_note(&mut r, aliases);
            r
        },
        Tool::Mise { version, .. } => {
            let mut r = "mise@".to_owned();
            match version {
                Some(v) => r.push_str(v.as_str()),
                None => r.push_str("latest"),
            }
            push_aliases_note(&mut r, aliases);
            r
        },
        Tool::Curl { binary, .. } => {
            let mut r = "curl (".to_owned();
            r.push_str(binary.as_str());
            r.push_str(")");
            push_aliases_note(&mut r, aliases);
            r
        },
    }
}

} // verus!
