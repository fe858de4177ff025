//! What a match shows of a project, and what is read back from a match once the operator
//! has selected it.
//!
//! A match carries a title and one line of description and nothing else, so the line has
//! to say what the selection needs: the action, the locality and the path.

use vstd::prelude::*;
use vstd::string::StringExecFns;
use crate::action::{action_label, label, ProjectAction};
use crate::launch::{Selection, SelectionView};
use crate::project::{Project, ProjectView};
use crate::text::{
    classify, lemma_marks_stripped, letters, marked_stripped, marks, matches_at, occurs_at, slice,
    strip_marked, stripped, to_chars, to_string, unmark, CharClass,
};

verus! {

/// What the description of a project with this action starts with: the action's word in
/// brackets, and a space.
pub open spec fn action_frame(action: ProjectAction) -> Seq<char> {
    "["@ + label(action) + "] "@
}

/// The word that stands for a project's locality.
pub open spec fn locality_word(is_global: bool) -> Seq<char> {
    if is_global {
        "global"@
    } else {
        "local"@
    }
}

/// The path that a match shows: the configuration of a global project, the root of a local
/// one.
pub open spec fn shown_path(project: ProjectView) -> Seq<char> {
    if project.is_global {
        match project.config {
            Some(config) => config,
            None => "<unknown>"@,
        }
    } else {
        project.root
    }
}

/// The description of a project's match: the action in brackets, the locality, the path.
pub open spec fn description(project: ProjectView) -> Seq<char> {
    action_frame(project.action) + locality_word(project.is_global) + " "@ + shown_path(project)
}

/// The action that a description names: the one whose frame it starts with. A description
/// that starts with none of the three names no action.
pub open spec fn described_action(line: Seq<char>) -> Option<ProjectAction> {
    if occurs_at(line, action_frame(ProjectAction::Attach), 0) {
        Some(ProjectAction::Attach)
    } else if occurs_at(line, action_frame(ProjectAction::Start), 0) {
        Some(ProjectAction::Start)
    } else if occurs_at(line, action_frame(ProjectAction::Create), 0) {
        Some(ProjectAction::Create)
    } else {
        None
    }
}

/// The selection that a match stands for: its description names an action, then a
/// locality, and what follows, without the white space around it, is the path. A match
/// without a description, or with one that does not read so, stands for none.
pub open spec fn selected(title: Seq<char>, line: Option<Seq<char>>) -> Option<SelectionView> {
    match line {
        Some(line) => match described_action(line) {
            Some(action) => {
                let target = line.skip(action_frame(action).len() as int);
                if occurs_at(target, "local "@, 0) {
                    Some(
                        SelectionView {
                            name: title,
                            path: stripped(
                                target.skip("local "@.len() as int),
                                CharClass::Whitespace,
                            ),
                            action,
                            is_global: false,
                        },
                    )
                } else if occurs_at(target, "global "@, 0) {
                    Some(
                        SelectionView {
                            name: title,
                            path: stripped(
                                target.skip("global "@.len() as int),
                                CharClass::Whitespace,
                            ),
                            action,
                            is_global: true,
                        },
                    )
                } else {
                    None
                }
            },
            None => None,
        },
        None => None,
    }
}

/// `selected` for a description whose white space is marked.
pub open spec fn selected_marked(title: Seq<char>, line: Option<Seq<(char, bool)>>) -> Option<
    SelectionView,
> {
    match line {
        Some(line) => match described_action(letters(line)) {
            Some(action) => {
                let target = line.skip(action_frame(action).len() as int);
                if occurs_at(letters(target), "local "@, 0) {
                    Some(
                        SelectionView {
                            name: title,
                            path: letters(marked_stripped(target.skip("local "@.len() as int))),
                            action,
                            is_global: false,
                        },
                    )
                } else if occurs_at(letters(target), "global "@, 0) {
                    Some(
                        SelectionView {
                            name: title,
                            path: letters(marked_stripped(target.skip("global "@.len() as int))),
                            action,
                            is_global: true,
                        },
                    )
                } else {
                    None
                }
            },
            None => None,
        },
        None => None,
    }
}

/// The text of an optional string slice.
pub open spec fn text_of_str(s: Option<&str>) -> Option<Seq<char>> {
    match s {
        Some(s) => Some(s@),
        None => None,
    }
}

/// The content of an optional marked text.
pub open spec fn marked_of(s: Option<&Vec<(char, bool)>>) -> Option<Seq<(char, bool)>> {
    match s {
        Some(s) => Some(s@),
        None => None,
    }
}

/// Marking the white space of a description and reading the marked line is reading the
/// description.
pub proof fn lemma_selected_marked(title: Seq<char>, line: Seq<char>)
    ensures
        selected_marked(title, Some(marks(line, CharClass::Whitespace))) == selected(
            title,
            Some(line),
        ),
{
    let class = CharClass::Whitespace;
    let m = marks(line, class);
    assert(letters(m) =~= line);
    match described_action(line) {
        Some(action) => {
            let k = action_frame(action).len() as int;
            let target = line.skip(k);
            assert(m.skip(k) =~= marks(target, class));
            assert(letters(marks(target, class)) =~= target);
            let l = "local "@.len() as int;
            let g = "global "@.len() as int;
            if occurs_at(target, "local "@, 0) {
                assert(marks(target, class).skip(l) =~= marks(target.skip(l), class));
                lemma_marks_stripped(target.skip(l), class);
            } else if occurs_at(target, "global "@, 0) {
                assert(marks(target, class).skip(g) =~= marks(target.skip(g), class));
                lemma_marks_stripped(target.skip(g), class);
            }
        },
        None => {},
    }
}

/// The characters that the description of a project with this action starts with.
fn frame_of(action: ProjectAction) -> (frame: Vec<char>)
    ensures
        frame@ == action_frame(action),
{
    to_chars(String::from_str("[").concat(action_label(action)).concat("] ").as_str())
}

/// Writes the description of a project's match.
pub fn describe(project: &Project) -> (line: String)
    ensures
        line@ == description(project@),
{
    let locality = if project.is_global {
        "global"
    } else {
        "local"
    };
    let head = String::from_str("[").concat(action_label(project.action)).concat("] ").concat(
        locality,
    ).concat(" ");
    if project.is_global {
        match &project.config {
            Some(config) => head.concat(config.as_str()),
            None => head.concat("<unknown>"),
        }
    } else {
        head.concat(project.root.as_str())
    }
}

/// Reads the action off a description.
pub fn action_in(line: &Vec<char>) -> (action: Option<ProjectAction>)
    ensures
        action == described_action(line@),
{
    if matches_at(line, &frame_of(ProjectAction::Attach), 0) {
        Some(ProjectAction::Attach)
    } else if matches_at(line, &frame_of(ProjectAction::Start), 0) {
        Some(ProjectAction::Start)
    } else if matches_at(line, &frame_of(ProjectAction::Create), 0) {
        Some(ProjectAction::Create)
    } else {
        None
    }
}

/// Reads the selection off a match whose description has its white space marked.
pub fn parse_marked_selection(title: &str, line: Option<&Vec<(char, bool)>>) -> (selection: Option<
    Selection,
>)
    ensures
        selection is Some <==> selected_marked(title@, marked_of(line)) is Some,
        selection matches Some(s) ==> s@ == selected_marked(title@, marked_of(line))->0,
{
    let line = match line {
        Some(line) => line,
        None => {
            return None;
        },
    };
    let action = match action_in(&unmark(line)) {
        Some(action) => action,
        None => {
            return None;
        },
    };
    let width = frame_of(action).len();
    let end = line.len();
    assert(width <= end);
    let target = slice(line, width, end);
    assert(target@ == line@.skip(width as int));
    let chars = unmark(&target);
    let local = to_chars("local ");
    let global = to_chars("global ");
    let is_global = if matches_at(&chars, &local, 0) {
        false
    } else if matches_at(&chars, &global, 0) {
        true
    } else {
        return None;
    };
    let skipped = if is_global {
        global.len()
    } else {
        local.len()
    };
    let rest = slice(&target, skipped, target.len());
    assert(rest@ == target@.skip(skipped as int));
    Some(
        Selection {
            name: String::from_str(title),
            path: to_string(&unmark(&strip_marked(&rest))),
            action,
            is_global,
        },
    )
}

/// Reads the selection off a match that the operator selected. A match that does not read
/// as one of this launcher's is passed over: nothing is selected, and nothing fails.
pub fn parse_selection(title: &str, line: Option<&str>) -> (selection: Option<Selection>)
    ensures
        selection is Some <==> selected(title@, text_of_str(line)) is Some,
        selection matches Some(s) ==> s@ == selected(title@, text_of_str(line))->0,
{
    match line {
        Some(line) => {
            proof {
                lemma_selected_marked(title@, line@);
            }
            parse_marked_selection(
                title,
                Some(&classify(&to_chars(line), CharClass::Whitespace)),
            )
        },
        None => None,
    }
}

/// What is read back from the description of a project is what was written: its action,
/// its locality and its path, without the white space around it.
pub proof fn lemma_description_reads_back(project: ProjectView)
    ensures
        selected(project.name, Some(description(project))) == Some(
            SelectionView {
                name: project.name,
                path: stripped(shown_path(project), CharClass::Whitespace),
                action: project.action,
                is_global: project.is_global,
            },
        ),
{
    reveal_strlit("[");
    reveal_strlit("] ");
    reveal_strlit(" ");
    reveal_strlit("attach");
    reveal_strlit("start");
    reveal_strlit("create");
    reveal_strlit("local");
    reveal_strlit("global");
    reveal_strlit("local ");
    reveal_strlit("global ");
    let frame = action_frame(project.action);
    let place = locality_word(project.is_global);
    let path = shown_path(project);
    let line = description(project);
    let attach = action_frame(ProjectAction::Attach);
    let start = action_frame(ProjectAction::Start);
    assert(line.subrange(0, frame.len() as int) =~= frame);
    assert(line[1] == label(project.action)[0]);
    assert(described_action(line) == Some(project.action)) by {
        if project.action != ProjectAction::Attach && occurs_at(line, attach, 0) {
            assert(line.subrange(0, attach.len() as int)[1] == attach[1]);
        }
        if project.action == ProjectAction::Create && occurs_at(line, start, 0) {
            assert(line.subrange(0, start.len() as int)[1] == start[1]);
        }
    }
    let target = line.skip(frame.len() as int);
    assert(target =~= place + " "@ + path);
    if project.is_global {
        assert(target.subrange(0, "global "@.len() as int) =~= "global "@);
        assert(!occurs_at(target, "local "@, 0)) by {
            if occurs_at(target, "local "@, 0) {
                assert(target.subrange(0, "local "@.len() as int)[0] == "local "@[0]);
            }
        }
        assert(target.skip("global "@.len() as int) =~= path);
    } else {
        assert(target.subrange(0, "local "@.len() as int) =~= "local "@);
        assert(target.skip("local "@.len() as int) =~= path);
    }
}

/// A description that starts with none of the three actions in brackets selects nothing.
pub proof fn lemma_unknown_action_selects_nothing(title: Seq<char>, line: Seq<char>)
    requires
        !occurs_at(line, action_frame(ProjectAction::Attach), 0),
        !occurs_at(line, action_frame(ProjectAction::Start), 0),
        !occurs_at(line, action_frame(ProjectAction::Create), 0),
    ensures
        selected(title, Some(line)) is None,
{
}

} // verus!
