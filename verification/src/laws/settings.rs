//! Which configurations are accepted, and what their permissions come to.

use crate::builtin::{
    bash_rules, is_verdict, lemma_bash_pattern_becomes_rule, lemma_merged_settings,
    lemma_rule_comes_from_pattern, merged_settings, pattern_problem, patterns_problem,
    permission_problem, permissions_problem, permissions_tree, rules_for, settings_shape, Harness,
};
use crate::config::{
    def_problem, empty_download, is_toolchain_name, names_problem, sets_variable, unnamed_tool,
    Config,
};
use crate::json::{member_of, member_trees, tree_member, JsonTree};
use crate::text::{contains_part, texts};
use crate::toolchain::{expansion, ToolchainDef};
use vstd::prelude::*;
use vstd::string::*;

verus! {

/// Every tool of a definition has a name, and every script a place.
pub open spec fn is_complete(def: ToolchainDef) -> bool {
    &&& forall|i: int| 0 <= i < def.uv@.len() ==> (#[trigger] def.uv@[i]).name@.len() > 0
    &&& forall|i: int|
        0 <= i < def.downloads@.len() ==> (#[trigger] def.downloads@[i]).url@.len() > 0
}

proof fn lemma_names_accepted(names: Seq<Seq<char>>)
    ensures
        names_problem(names) is None <==> forall|i: int|
            0 <= i < names.len() ==> is_toolchain_name(#[trigger] names[i]),
    decreases names.len(),
{
    if names.len() > 0 {
        let front = names.drop_last();
        lemma_names_accepted(front);
        if names_problem(names) is None {
            assert forall|i: int| 0 <= i < names.len() implies is_toolchain_name(
                #[trigger] names[i],
            ) by {
                if i < front.len() {
                    assert(front[i] == names[i]);
                }
            }
        }
        if forall|i: int| 0 <= i < names.len() ==> is_toolchain_name(#[trigger] names[i]) {
            assert forall|i: int| 0 <= i < front.len() implies is_toolchain_name(
                #[trigger] front[i],
            ) by {
                assert(front[i] == names[i]);
            }
            assert(is_toolchain_name(names[names.len() - 1]));
        }
    }
}

proof fn lemma_defs_accepted(config: &Config, names: Seq<Seq<char>>)
    ensures
        config.defs_problem(names) is None <==> forall|i: int|
            0 <= i < names.len() ==> is_complete(config.def_of(#[trigger] names[i])->Some_0),
    decreases names.len(),
{
    if names.len() > 0 {
        let front = names.drop_last();
        lemma_defs_accepted(config, front);
        let last = config.def_of(names.last())->Some_0;
        assert(def_problem(last, names.last()) is None <==> is_complete(last)) by {
            if is_complete(last) {
                assert(!unnamed_tool(last.uv@));
                assert(!empty_download(last.downloads@));
            } else if !unnamed_tool(last.uv@) && !empty_download(last.downloads@) {
                assert(is_complete(last));
            }
        }
        if config.defs_problem(names) is None {
            assert forall|i: int| 0 <= i < names.len() implies is_complete(
                config.def_of(#[trigger] names[i])->Some_0,
            ) by {
                if i < front.len() {
                    assert(front[i] == names[i]);
                }
            }
        }
        if forall|i: int|
            0 <= i < names.len() ==> is_complete(config.def_of(#[trigger] names[i])->Some_0) {
            assert forall|i: int| 0 <= i < front.len() implies is_complete(
                config.def_of(#[trigger] front[i])->Some_0,
            ) by {
                assert(front[i] == names[i]);
            }
            assert(is_complete(config.def_of(names[names.len() - 1])->Some_0));
        }
    }
}

/// What the image of an accepted configuration rests on: a command, an absolute
/// workspace, names and tools that are complete, and toolchains that are defined
/// and do not include themselves.
pub open spec fn image_sound(config: Config) -> bool {
    &&& config.harness.command_texts().len() > 0
    &&& config.harness.problem() is None
    &&& config.workspace@.len() > 0 && config.workspace@[0] == '/'
    &&& config.image_tag is Some ==> config.image_tag->Some_0@.len() > 0
    &&& forall|i: int|
        0 <= i < config.defined().len() ==> is_toolchain_name(#[trigger] config.defined()[i])
    &&& expansion(config.includes(), texts(config.toolchains@)) is Ok
    &&& forall|i: int|
        0 <= i < expansion(config.includes(), texts(config.toolchains@))->Ok_0.len()
            ==> is_complete(
            config.def_of(
                #[trigger] expansion(config.includes(), texts(config.toolchains@))->Ok_0[i],
            )->Some_0,
        )
    &&& forall|i: int| 0 <= i < config.uv@.len() ==> (#[trigger] config.uv@[i]).name@.len() > 0
    &&& forall|i: int|
        0 <= i < config.downloads@.len() ==> (#[trigger] config.downloads@[i]).url@.len() > 0
}

/// What its sessions rest on: a viewer that is told where to look, and limits
/// that let something through.
pub open spec fn sessions_sound(config: Config) -> bool {
    &&& config.diff_viewer is Some ==> contains_part(config.diff_viewer->Some_0@, "{dir}"@)
    &&& forall|i: int|
        0 <= i < config.environment@.len() ==> (#[trigger] config.environment@[i]).0@
            != "diff_viewer"@
    &&& config.networking.payload_size is Some ==> config.networking.payload_size->Some_0 > 0
    &&& config.networking.quota is Some ==> config.networking.quota->Some_0 > 0
}

/// A configuration is accepted exactly where its image and its sessions are
/// sound.
pub proof fn lemma_accepted_exactly_if_sound(config: Config)
    ensures
        config.problem() is None <==> image_sound(config) && sessions_sound(config),
{
    reveal_strlit("/");
    let workspace = config.workspace@;
    if workspace.len() > 0 {
        assert(workspace.take(1) =~= seq![workspace[0]]);
        assert("/"@ =~= seq!['/']);
        assert(seq![workspace[0]][0] == workspace[0]);
        assert(seq!['/'][0] == '/');
    }
    lemma_names_accepted(config.defined());
    if expansion(config.includes(), texts(config.toolchains@)) is Ok {
        lemma_defs_accepted(
            &config,
            expansion(config.includes(), texts(config.toolchains@))->Ok_0,
        );
    }
    assert(unnamed_tool(config.uv@) <==> !(forall|i: int|
        0 <= i < config.uv@.len() ==> (#[trigger] config.uv@[i]).name@.len() > 0));
    assert(empty_download(config.downloads@) <==> !(forall|i: int|
        0 <= i < config.downloads@.len() ==> (#[trigger] config.downloads@[i]).url@.len() > 0));
    assert(sets_variable(config.environment@, "diff_viewer"@) <==> !(forall|i: int|
        0 <= i < config.environment@.len() ==> (#[trigger] config.environment@[i]).0@
            != "diff_viewer"@));
    assert(config.image_problem() is None <==> image_sound(config));
    assert(config.session_problem() is None <==> sessions_sound(config));
}

/// The three verdicts of an allowlist.
pub open spec fn verdict(value: JsonTree) -> bool {
    value == JsonTree::Text("allow"@) || value == JsonTree::Text("ask"@) || value
        == JsonTree::Text("deny"@)
}

/// A permission of a `ClaudeCode` allowlist: a verdict on edits, or verdicts on
/// shell patterns.
pub open spec fn permission(key: Seq<char>, value: JsonTree) -> bool {
    ||| key == "edit"@ && verdict(value)
    ||| key == "bash"@ && value is Object && forall|i: int|
        0 <= i < value->Object_0.len() ==> verdict((#[trigger] value->Object_0[i]).1)
}

proof fn lemma_patterns_accepted(patterns: Seq<(Seq<char>, JsonTree)>)
    ensures
        patterns_problem(patterns) is None <==> forall|i: int|
            0 <= i < patterns.len() ==> verdict((#[trigger] patterns[i]).1),
    decreases patterns.len(),
{
    if patterns.len() > 0 {
        let front = patterns.drop_last();
        lemma_patterns_accepted(front);
        let last = patterns.last();
        assert(pattern_problem(last.0, last.1) is None <==> verdict(last.1));
        if patterns_problem(patterns) is None {
            assert forall|i: int| 0 <= i < patterns.len() implies verdict(
                (#[trigger] patterns[i]).1,
            ) by {
                if i < front.len() {
                    assert(front[i] == patterns[i]);
                }
            }
        }
        if forall|i: int| 0 <= i < patterns.len() ==> verdict((#[trigger] patterns[i]).1) {
            assert forall|i: int| 0 <= i < front.len() implies verdict(
                (#[trigger] front[i]).1,
            ) by {
                assert(front[i] == patterns[i]);
            }
            assert(verdict(patterns[patterns.len() - 1].1));
        }
    }
}

proof fn lemma_permission_accepted(harness: Seq<char>, key: Seq<char>, value: JsonTree)
    ensures
        permission_problem(harness, key, value) is None <==> permission(key, value),
{
    reveal_strlit("edit");
    reveal_strlit("bash");
    assert("edit"@[0] == 'e' && "bash"@[0] == 'b');
    match value {
        JsonTree::Object(patterns) => lemma_patterns_accepted(patterns),
        JsonTree::Text(text) => {
            assert(is_verdict(text) <==> verdict(value));
        },
        _ => {},
    }
}

/// An allowlist is accepted exactly where each of its entries is a permission.
pub proof fn lemma_allowlist_accepted(harness: Seq<char>, list: Seq<(Seq<char>, JsonTree)>)
    ensures
        permissions_problem(harness, list) is None <==> forall|i: int|
            0 <= i < list.len() ==> permission((#[trigger] list[i]).0, list[i].1),
    decreases list.len(),
{
    if list.len() > 0 {
        let front = list.drop_last();
        let last = list.last();
        lemma_allowlist_accepted(harness, front);
        lemma_permission_accepted(harness, last.0, last.1);
        if permissions_problem(harness, list) is None {
            assert forall|i: int| 0 <= i < list.len() implies permission(
                (#[trigger] list[i]).0,
                list[i].1,
            ) by {
                if i < front.len() {
                    assert(front[i] == list[i]);
                }
            }
        }
        if forall|i: int| 0 <= i < list.len() ==> permission((#[trigger] list[i]).0, list[i].1) {
            assert forall|i: int| 0 <= i < front.len() implies permission(
                (#[trigger] front[i]).0,
                front[i].1,
            ) by {
                assert(front[i] == list[i]);
            }
            assert(permission(list[list.len() - 1].0, list[list.len() - 1].1));
        }
    }
}

/// OpenCode takes any allowlist; `ClaudeCode` one whose entries are permissions;
/// a defined harness must have an absolute place for its override.
pub proof fn lemma_harness_accepted(harness: &Harness)
    ensures
        harness.problem() is None <==> match harness {
            Harness::Opencode { .. } => true,
            Harness::ClaudeCode { allowlist: None, .. } => true,
            Harness::ClaudeCode { allowlist: Some(list), .. } => forall|i: int|
                0 <= i < member_trees(list@).len() ==> permission(
                    (#[trigger] member_trees(list@)[i]).0,
                    member_trees(list@)[i].1,
                ),
            Harness::Defined { definition, .. } => definition@.allowlist.takes_override()
                ==> definition@.allowlist.target.len() > 0
                && definition@.allowlist.target[0] == '/',
        },
{
    match harness {
        Harness::ClaudeCode { allowlist: Some(list), .. } => {
            lemma_allowlist_accepted(harness.name_text(), member_trees(list@));
        },
        Harness::Defined { definition, .. } => {
            reveal_strlit("/");
            let target = definition@.allowlist.target;
            assert("/"@ =~= seq!['/']);
            if target.len() > 0 {
                assert(target.take(1) =~= seq![target[0]]);
                assert(seq![target[0]][0] == target[0]);
                assert(seq!['/'][0] == '/');
            }
        },
        _ => {},
    }
}

/// An image goes by its configured tag, or by one that names the harness.
pub proof fn lemma_tag_names_the_harness(config: &Config)
    ensures
        config.image_tag is Some ==> config.tag_text() == config.image_tag->Some_0@,
        config.image_tag is None ==> config.tag_text() == "localhost/pithos-"@ + (
        match config.harness {
            Harness::Opencode { .. } => "opencode"@,
            Harness::ClaudeCode { names, .. } => names@.base + "-code"@,
            Harness::Defined { definition, .. } => definition.name@,
        }) + ":latest"@,
{
}

/// A verdict on edits becomes the rules for the two tools that write files,
/// under that verdict and no other.
pub proof fn lemma_edit_verdict_becomes_rules(
    allowlist: Seq<(Seq<char>, JsonTree)>,
    given: Seq<char>,
    asked: Seq<char>,
)
    requires
        crate::json::member_of(allowlist, "edit"@) == Some(JsonTree::Text(given)),
        crate::json::member_of(allowlist, "bash"@) is None,
    ensures
        crate::builtin::rules_for(allowlist, asked) == (if asked == given {
            seq![JsonTree::Text("Edit"@), JsonTree::Text("Write"@)]
        } else {
            Seq::empty()
        }),
{
}

/// The rules that generated settings list under a verdict.
pub open spec fn rules_under(settings: JsonTree, verdict: Seq<char>) -> Option<Seq<JsonTree>> {
    match tree_member(settings, "permissions"@) {
        Some(permissions) => match tree_member(permissions, verdict) {
            Some(JsonTree::List(rules)) => Some(rules),
            _ => None,
        },
        None => None,
    }
}

proof fn lemma_rules_stand_under(
    settings: JsonTree,
    allowlist: Seq<(Seq<char>, JsonTree)>,
    verdict: Seq<char>,
)
    requires
        settings_shape(settings),
        is_verdict(verdict),
    ensures
        rules_under(merged_settings(settings, allowlist), verdict) == Some(
            rules_for(allowlist, verdict),
        ),
{
    reveal_strlit("allow");
    reveal_strlit("ask");
    reveal_strlit("deny");
    lemma_merged_settings(settings, allowlist, "permissions"@);
    let members = permissions_tree(allowlist)->Object_0;
    assert("allow"@.len() == 5 && "ask"@.len() == 3 && "deny"@.len() == 4);
    assert(members.skip(1)[0] == members[1]);
    assert(members.skip(1).skip(1)[0] == members[2]);
    reveal_with_fuel(member_of, 4);
}

/// A verdict on a shell pattern stands in the generated settings as a rule under
/// that verdict, whatever the user's own settings say.
pub proof fn lemma_pattern_reaches_settings(
    settings: JsonTree,
    allowlist: Seq<(Seq<char>, JsonTree)>,
    patterns: Seq<(Seq<char>, JsonTree)>,
    verdict: Seq<char>,
    i: int,
)
    requires
        settings is Object || settings is Null,
        verdict == "allow"@ || verdict == "ask"@ || verdict == "deny"@,
        member_of(allowlist, "bash"@) == Some(JsonTree::Object(patterns)),
        0 <= i < patterns.len(),
        patterns[i].1 == JsonTree::Text(verdict),
    ensures
        rules_under(merged_settings(settings, allowlist), verdict) is Some,
        rules_under(merged_settings(settings, allowlist), verdict)->Some_0.contains(
            JsonTree::Text("Bash("@ + patterns[i].0 + ")"@),
        ),
{
    lemma_rules_stand_under(settings, allowlist, verdict);
    lemma_bash_pattern_becomes_rule(patterns, verdict, i);
    let rules = rules_for(allowlist, verdict);
    let shell = bash_rules(patterns, verdict);
    let rule = JsonTree::Text("Bash("@ + patterns[i].0 + ")"@);
    let j = choose|j: int| 0 <= j < shell.len() && shell[j] == rule;
    let n = rules.len() - shell.len();
    assert(rules[n + j] == rule);
}

/// No rule stands under a verdict but those that were given it: a shell pattern,
/// or a verdict on edits for the two tools that write files.
pub proof fn lemma_rule_was_given(
    settings: JsonTree,
    allowlist: Seq<(Seq<char>, JsonTree)>,
    verdict: Seq<char>,
    rule: JsonTree,
)
    requires
        settings is Object || settings is Null,
        verdict == "allow"@ || verdict == "ask"@ || verdict == "deny"@,
        rules_under(merged_settings(settings, allowlist), verdict) is Some,
        rules_under(merged_settings(settings, allowlist), verdict)->Some_0.contains(rule),
    ensures
        ({
            ||| member_of(allowlist, "edit"@) == Some(JsonTree::Text(verdict)) && (rule
                == JsonTree::Text("Edit"@) || rule == JsonTree::Text("Write"@))
            ||| member_of(allowlist, "bash"@) matches Some(JsonTree::Object(patterns)) && exists|
                i: int,
            |
                0 <= i < patterns.len() && (#[trigger] patterns[i]).1 == JsonTree::Text(verdict)
                    && rule == JsonTree::Text("Bash("@ + patterns[i].0 + ")"@)
        }),
{
    lemma_rules_stand_under(settings, allowlist, verdict);
    let rules = rules_for(allowlist, verdict);
    let j = choose|j: int| 0 <= j < rules.len() && rules[j] == rule;
    if let Some(JsonTree::Object(patterns)) = member_of(allowlist, "bash"@) {
        let shell = bash_rules(patterns, verdict);
        let n = rules.len() - shell.len();
        if j >= n {
            assert(shell[j - n] == rule);
            lemma_rule_comes_from_pattern(patterns, verdict, rule);
        }
    }
}

} // verus!
