//! Reclaiming space, one decision at a time. For what can be rebuilt or reinstalled
//! the canonical clean tool of the matching Rule is preferred, with plain removal
//! where there is none or the tool is absent; everything else is removed by its
//! path alone. What a Rule vouches for is deleted permanently; an overridden
//! `Unclassified` Item goes to the Trash instead.

use crate::classify;
use crate::classify::PathFacts;
use crate::classify::Subject;
use crate::model;
use crate::model::Item;
use crate::model::ItemView;
use crate::model::SafetyClass;
use crate::path::DiskPath;
use crate::ruleset::Rule;
use crate::ruleset::RuleView;
use crate::ruleset::Ruleset;
use crate::text;
use vstd::prelude::*;

verus! {

/// What a reclaim actually did, for honest reporting back to the user.
#[derive(Debug)]
pub enum Reclaimed {
    ToolClean { command: String },
    Removed,
    Trashed,
}

/// What a [`Reclaimed`] says.
pub enum ReclaimedView {
    ToolClean { command: Seq<char> },
    Removed,
    Trashed,
}

impl View for Reclaimed {
    type V = ReclaimedView;

    open spec fn view(&self) -> ReclaimedView {
        match self {
            Reclaimed::ToolClean { command } => ReclaimedView::ToolClean { command: command@ },
            Reclaimed::Removed => ReclaimedView::Removed,
            Reclaimed::Trashed => ReclaimedView::Trashed,
        }
    }
}

/// What is to be done next to reclaim an Item.
#[derive(Debug)]
pub enum ReclaimStep {
    /// Nothing: the Item is not reclaimable.
    Refuse { reason: String },
    /// Move the Item to the Trash.
    Trash,
    /// Run `script` to see whether the tool of `command` is there.
    Probe { command: String, script: String },
    /// Run `command` in the parent directory of the Item.
    Clean { command: String },
    /// Delete the Item, a file or a directory tree.
    Remove,
}

/// What a [`ReclaimStep`] says.
pub enum StepView {
    Refuse { reason: Seq<char> },
    Trash,
    Probe { command: Seq<char>, script: Seq<char> },
    Clean { command: Seq<char> },
    Remove,
}

impl View for ReclaimStep {
    type V = StepView;

    open spec fn view(&self) -> StepView {
        match self {
            ReclaimStep::Refuse { reason } => StepView::Refuse { reason: reason@ },
            ReclaimStep::Trash => StepView::Trash,
            ReclaimStep::Probe { command, script } => StepView::Probe {
                command: command@,
                script: script@,
            },
            ReclaimStep::Clean { command } => StepView::Clean { command: command@ },
            ReclaimStep::Remove => StepView::Remove,
        }
    }
}

/// Why an Item is refused.
pub open spec fn refusal(item: ItemView) -> Seq<char> {
    text::lossy_utf8(item.path) + " is "@ + model::class_label(item.class)
        + " and not reclaimable"@
}

/// The script that succeeds where the tool of a command is there. A command
/// without a word has no tool.
pub open spec fn probe_script(command: Seq<char>) -> Option<Seq<char>> {
    match text::first_word(command) {
        Some(exe) => Some("command -v "@ + exe),
        None => None,
    }
}

/// The clean command of the Rule at a place, if there is one.
pub open spec fn clean_command_at(rules: Seq<RuleView>, found: Option<usize>) -> Option<Seq<char>> {
    match found {
        Some(i) => rules[i as int].clean_command,
        None => None,
    }
}

/// Whether the clean tool of a Rule may be run for an Item of this class. A tool
/// removes what it owns, which for any other class may be more than the Item.
pub open spec fn tool_class(class: SafetyClass) -> bool {
    class == SafetyClass::Regenerable || class == SafetyClass::Reinstallable
}

/// The first step of a reclaim, `found` being the place of the first Rule that
/// matches the Item.
pub open spec fn first_step(
    item: ItemView,
    rules: Seq<RuleView>,
    found: Option<usize>,
) -> StepView {
    if !item.may_reclaim() {
        StepView::Refuse { reason: refusal(item) }
    } else if item.class == SafetyClass::Unclassified {
        StepView::Trash
    } else if !tool_class(item.class) {
        StepView::Remove
    } else {
        match clean_command_at(rules, found) {
            Some(command) => match probe_script(command) {
                Some(script) => StepView::Probe { command, script },
                None => StepView::Remove,
            },
            None => StepView::Remove,
        }
    }
}

/// Decides how to reclaim a single Item. Refuses anything not currently
/// reclaimable: the Confirm gate lies before this, but this is the last
/// guardrail.
pub fn reclaim(item: &Item, ruleset: &Ruleset, facts: &PathFacts) -> (r: ReclaimStep)
    ensures
        exists|found: Option<usize>|
            {
                &&& #[trigger] classify::is_first_match(
                    ruleset@,
                    classify::subject(item.path@, facts.is_dir, facts.markers),
                    found,
                )
                &&& r@ == first_step(item@, ruleset@, found)
            },
{
    let found: Option<&Rule> = classify::match_rule(ruleset, &item.path, facts);
    let ghost place = choose|found_at: Option<usize>|
        {
            &&& #[trigger] classify::is_first_match(
                ruleset@,
                classify::subject(item.path@, facts.is_dir, facts.markers),
                found_at,
            )
            &&& found == (match found_at {
                Some(i) => Some(&ruleset.rules@[i as int]),
                None => None::<&Rule>,
            })
        };
    assert(classify::is_first_match(
        ruleset@,
        classify::subject(item.path@, facts.is_dir, facts.markers),
        place,
    ));
    if !item.may_reclaim() {
        return ReclaimStep::Refuse {
            reason: item.path.display().concat(" is ").concat(item.class.label()).concat(
                " and not reclaimable",
            ),
        };
    }
    // The one path where the app cannot vouch for what is deleted.
    if item.class == SafetyClass::Unclassified {
        return ReclaimStep::Trash;
    }
    // Only the Item's own path: a clean tool may touch more than the Item.
    if item.class != SafetyClass::Regenerable && item.class != SafetyClass::Reinstallable {
        return ReclaimStep::Remove;
    }
    if let Some(rule) = found {
        if let Some(command) = &rule.clean_command {
            if let Some(exe) = text::word_of(command.as_str()) {
                return ReclaimStep::Probe {
                    command: command.clone(),
                    script: "command -v ".to_owned().concat(exe.as_str()),
                };
            }
        }
    }
    ReclaimStep::Remove
}

/// The step after a probe: the tool if it is there, plain removal otherwise.
pub fn after_probe(command: String, available: bool) -> (r: ReclaimStep)
    ensures
        r@ == (if available {
            StepView::Clean { command: command@ }
        } else {
            StepView::Remove
        }),
{
    if available {
        ReclaimStep::Clean { command }
    } else {
        ReclaimStep::Remove
    }
}

/// How a step went.
#[derive(Debug)]
pub enum StepOutcome {
    Done,
    /// It could not be carried out.
    Failed,
    /// The Item has no parent directory to run a command in.
    NoParent,
    /// The command ran and reported a failure.
    Exited { status: String },
}

/// What a step that was carried out has done.
pub open spec fn done_by(step: StepView) -> Option<ReclaimedView> {
    match step {
        StepView::Trash => Some(ReclaimedView::Trashed),
        StepView::Clean { command } => Some(ReclaimedView::ToolClean { command }),
        StepView::Remove => Some(ReclaimedView::Removed),
        _ => None,
    }
}

/// What went wrong with a step.
pub open spec fn failure_of(step: StepView, path: Seq<u8>, outcome: StepOutcome) -> Seq<char> {
    match step {
        StepView::Refuse { reason } => reason,
        StepView::Trash => "trashing "@ + text::lossy_utf8(path),
        StepView::Probe { command, .. } => "running `"@ + command + "`"@,
        StepView::Remove => "removing "@ + text::lossy_utf8(path),
        StepView::Clean { command } => match outcome {
            StepOutcome::NoParent => "item has no parent directory"@,
            StepOutcome::Exited { status } => "`"@ + command + "` exited with "@ + status@,
            _ => "running `"@ + command + "`"@,
        },
    }
}

/// The result of a reclaim whose last step went as `outcome` says. Only a step
/// that was carried out counts as done; a refusal and a probe never do.
pub fn conclude(step: ReclaimStep, path: &DiskPath, outcome: StepOutcome) -> (r: Result<
    Reclaimed,
    String,
>)
    ensures
        match r {
            Ok(done) => outcome is Done && done_by(step@) == Some(done@),
            Err(reason) => (!(outcome is Done) || done_by(step@) is None) && reason@
                == failure_of(step@, path@, outcome),
        },
{
    match step {
        ReclaimStep::Refuse { reason } => Err(reason),
        ReclaimStep::Trash => match outcome {
            StepOutcome::Done => Ok(Reclaimed::Trashed),
            _ => Err("trashing ".to_owned().concat(path.display().as_str())),
        },
        ReclaimStep::Probe { command, .. } => Err(
            "running `".to_owned().concat(command.as_str()).concat("`"),
        ),
        ReclaimStep::Clean { command } => match outcome {
            StepOutcome::Done => Ok(Reclaimed::ToolClean { command }),
            StepOutcome::NoParent => Err("item has no parent directory".to_owned()),
            StepOutcome::Exited { status } => Err(
                "`".to_owned().concat(command.as_str()).concat("` exited with ").concat(
                    status.as_str(),
                ),
            ),
            StepOutcome::Failed => Err("running `".to_owned().concat(command.as_str()).concat("`")),
        },
        ReclaimStep::Remove => match outcome {
            StepOutcome::Done => Ok(Reclaimed::Removed),
            _ => Err("removing ".to_owned().concat(path.display().as_str())),
        },
    }
}

/// What the user is told while a step runs.
pub open spec fn action_text(step: StepView) -> Seq<char> {
    match step {
        StepView::Refuse { .. } => "Not reclaimable"@,
        StepView::Trash => "Moving to Trash"@,
        StepView::Probe { command, .. } => "Running `"@ + command + "`"@,
        StepView::Clean { command } => "Running `"@ + command + "`"@,
        StepView::Remove => "Removing"@,
    }
}

/// What the user is told while an Item is reclaimed.
pub fn planned_action(step: &ReclaimStep) -> (r: String)
    ensures
        r@ == action_text(step@),
{
    match step {
        ReclaimStep::Refuse { .. } => "Not reclaimable".to_owned(),
        ReclaimStep::Trash => "Moving to Trash".to_owned(),
        ReclaimStep::Probe { command, .. } => "Running `".to_owned().concat(
            command.as_str(),
        ).concat("`"),
        ReclaimStep::Clean { command } => "Running `".to_owned().concat(command.as_str()).concat(
            "`",
        ),
        ReclaimStep::Remove => "Removing".to_owned(),
    }
}

/// How a reclaim is reported.
pub open spec fn done_label(done: ReclaimedView) -> Seq<char> {
    match done {
        ReclaimedView::ToolClean { command } => "cleaned via `"@ + command + "`"@,
        ReclaimedView::Removed => "removed"@,
        ReclaimedView::Trashed => "moved to Trash"@,
    }
}

/// Reports a reclaim.
pub fn reclaimed_label(done: Reclaimed) -> (r: String)
    ensures
        r@ == done_label(done@),
{
    match done {
        Reclaimed::ToolClean { command } => "cleaned via `".to_owned().concat(
            command.as_str(),
        ).concat("`"),
        Reclaimed::Removed => "removed".to_owned(),
        Reclaimed::Trashed => "moved to Trash".to_owned(),
    }
}

/// A Protected Item, and one that still needs an override, is refused whatever
/// the Rules say, and a refusal never ends in anything done.
pub proof fn law_guardrail_refuses(item: ItemView, rules: Seq<RuleView>, found: Option<usize>)
    requires
        item.class == SafetyClass::Irreplaceable || (model::override_class(item.class)
            && !item.overridden),
    ensures
        first_step(item, rules, found) == (StepView::Refuse { reason: refusal(item) }),
        done_by(first_step(item, rules, found)) is None,
{
}

/// An Unclassified Item is moved to the Trash or left alone, never deleted.
pub proof fn law_unclassified_only_goes_to_trash(
    item: ItemView,
    rules: Seq<RuleView>,
    found: Option<usize>,
)
    requires
        item.class == SafetyClass::Unclassified,
    ensures
        first_step(item, rules, found) is Trash || first_step(item, rules, found) is Refuse,
{
}

/// Only an Unclassified Item goes to the Trash: whatever else may be reclaimed
/// frees its space at once.
pub proof fn law_reclaimable_frees_space(
    item: ItemView,
    rules: Seq<RuleView>,
    found: Option<usize>,
)
    requires
        item.may_reclaim(),
        item.class != SafetyClass::Unclassified,
    ensures
        first_step(item, rules, found) is Remove || first_step(item, rules, found) is Probe,
{
}

/// The clean tool is tried exactly where the matching Rule of a Regenerable or
/// Reinstallable Item names one.
pub proof fn law_clean_tool_is_preferred(
    item: ItemView,
    rules: Seq<RuleView>,
    found: Option<usize>,
)
    requires
        item.may_reclaim(),
    ensures
        first_step(item, rules, found) is Probe <==> (tool_class(item.class) && clean_command_at(
            rules,
            found,
        ) is Some && text::first_word(clean_command_at(rules, found)->0) is Some),
        first_step(item, rules, found) is Probe ==> Some(first_step(item, rules, found)->Probe_command)
            == clean_command_at(rules, found),
{
}

/// A Redundant Copy and a cache are removed by their own path, whatever Rule
/// matches them: no command is ever run for them.
pub proof fn law_copies_and_caches_are_only_removed(
    item: ItemView,
    rules: Seq<RuleView>,
    found: Option<usize>,
)
    requires
        item.may_reclaim(),
        item.class == SafetyClass::RedundantCopy || item.class == SafetyClass::Cache || item.class
            == SafetyClass::BrowserCache,
    ensures
        first_step(item, rules, found) is Remove,
{
}

/// The command that is run for an Item is the one that the first Rule to match it
/// names, unchanged, after looking for the program that it starts with. Where that
/// Rule names none, or no Rule matches, the Item is removed by its path.
pub proof fn law_the_matching_rule_names_the_command(
    item: ItemView,
    rules: Seq<RuleView>,
    s: Subject,
    found: Option<usize>,
)
    requires
        classify::is_first_match(rules, s, found),
        item.class == SafetyClass::Regenerable || item.class == SafetyClass::Reinstallable,
    ensures
        first_step(item, rules, found) is Probe ==> found is Some && classify::holds(
            rules[found->0 as int].matches,
            s,
        ) && rules[found->0 as int].clean_command == Some(
            first_step(item, rules, found)->Probe_command,
        ),
        found is None ==> first_step(item, rules, found) is Remove,
        found is Some && rules[found->0 as int].clean_command is None ==> first_step(
            item,
            rules,
            found,
        ) is Remove,
        forall|blank: Seq<char>, exe: Seq<char>, rest: Seq<char>|
            found is Some && exe.len() > 0 && (forall|k: int|
                0 <= k < blank.len() ==> text::is_white(#[trigger] blank[k])) && (forall|k: int|
                0 <= k < exe.len() ==> !text::is_white(#[trigger] exe[k])) && (rest.len() == 0
                || text::is_white(rest[0])) && rules[found->0 as int].clean_command == Some(
                #[trigger] (blank + exe + rest),
            ) ==> first_step(item, rules, found) == (StepView::Probe {
                command: blank + exe + rest,
                script: "command -v "@ + exe,
            }),
{
    assert forall|blank: Seq<char>, exe: Seq<char>, rest: Seq<char>|
        found is Some && exe.len() > 0 && (forall|k: int|
            0 <= k < blank.len() ==> text::is_white(#[trigger] blank[k])) && (forall|k: int|
            0 <= k < exe.len() ==> !text::is_white(#[trigger] exe[k])) && (rest.len() == 0
            || text::is_white(rest[0])) && rules[found->0 as int].clean_command == Some(
            #[trigger] (blank + exe + rest),
        ) implies first_step(item, rules, found) == (StepView::Probe {
        command: blank + exe + rest,
        script: "command -v "@ + exe,
    }) by {
        text::law_the_first_word(blank, exe, rest);
    }
}

/// What is done at once, without asking for a program: nothing for what may not be
/// reclaimed, the Trash for an overridden Unclassified Item, and removal for a
/// Redundant Copy or a cache.
pub proof fn law_the_class_decides_the_destination(
    item: ItemView,
    rules: Seq<RuleView>,
    found: Option<usize>,
)
    ensures
        item.class == SafetyClass::Irreplaceable ==> first_step(item, rules, found) is Refuse,
        item.class == SafetyClass::Unclassified ==> if item.overridden {
            first_step(item, rules, found) is Trash
        } else {
            first_step(item, rules, found) is Refuse
        },
        item.class == SafetyClass::BrowserCache ==> if item.overridden {
            first_step(item, rules, found) is Remove
        } else {
            first_step(item, rules, found) is Refuse
        },
        item.class == SafetyClass::Cache || item.class == SafetyClass::RedundantCopy
            ==> first_step(item, rules, found) is Remove,
        item.class == SafetyClass::Regenerable || item.class == SafetyClass::Reinstallable
            ==> first_step(item, rules, found) is Probe || first_step(item, rules, found)
            is Remove,
{
}

/// What is reported as done is what the step was to do: a command that was run is
/// quoted, a removal is not called a move to the Trash, and neither a refusal nor a
/// probe counts as anything done.
pub proof fn law_the_report_says_what_was_done(step: StepView)
    ensures
        step is Trash <==> done_by(step) == Some(ReclaimedView::Trashed),
        step is Remove <==> done_by(step) == Some(ReclaimedView::Removed),
        step is Clean ==> done_by(step) == Some(
            ReclaimedView::ToolClean { command: step->Clean_command },
        ),
        step is Refuse || step is Probe ==> done_by(step) is None,
{
}

/// What is said of a step and of its outcome names the command that is run or was
/// run, the path that was removed, and why nothing was done.
pub proof fn law_what_is_said_of_a_step(
    item: ItemView,
    command: Seq<char>,
    script: Seq<char>,
    path: Seq<u8>,
    outcome: StepOutcome,
)
    ensures
        action_text(StepView::Clean { command }) == "Running `"@ + command + "`"@,
        action_text(StepView::Probe { command, script }) == "Running `"@ + command + "`"@,
        action_text(StepView::Remove) == "Removing"@,
        action_text(StepView::Trash) == "Moving to Trash"@,
        done_label(ReclaimedView::ToolClean { command }) == "cleaned via `"@ + command + "`"@,
        done_label(ReclaimedView::Removed) == "removed"@,
        done_label(ReclaimedView::Trashed) == "moved to Trash"@,
        refusal(item) == text::lossy_utf8(item.path) + " is "@ + model::class_label(item.class)
            + " and not reclaimable"@,
        failure_of(StepView::Trash, path, outcome) == "trashing "@ + text::lossy_utf8(path),
        failure_of(StepView::Remove, path, outcome) == "removing "@ + text::lossy_utf8(path),
        failure_of(StepView::Probe { command, script }, path, outcome) == "running `"@ + command
            + "`"@,
        failure_of(StepView::Refuse { reason: command }, path, outcome) == command,
        outcome is NoParent ==> failure_of(StepView::Clean { command }, path, outcome)
            == "item has no parent directory"@,
        outcome is Exited ==> failure_of(StepView::Clean { command }, path, outcome) == "`"@
            + command + "` exited with "@ + outcome->status@,
        outcome is Failed ==> failure_of(StepView::Clean { command }, path, outcome)
            == "running `"@ + command + "`"@,
{
}

} // verus!
