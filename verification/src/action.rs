//! The three-way decision that classifies a project against the live sessions.

use vstd::prelude::*;
use crate::sessions::SessionSet;

verus! {

/// What has to happen to bring a project's session to the foreground.
#[derive(Clone, Copy, Debug, PartialEq, Eq, Structural)]
pub enum ProjectAction {
    /// A live session of that name exists: switch or attach to it.
    Attach,
    /// No live session, but a configuration exists: start it.
    Start,
    /// Neither a session nor a configuration: one has to be written first.
    Create,
}

/// The action for a project of the given name: a live session of that name wins over
/// everything, then an existing configuration decides between starting and creating.
pub open spec fn resolve(name: Seq<char>, config_exists: bool, live: Set<Seq<char>>) -> ProjectAction {
    if live.contains(name) {
        ProjectAction::Attach
    } else if config_exists {
        ProjectAction::Start
    } else {
        ProjectAction::Create
    }
}

/// Classifies the project called `name` against the live sessions.
pub fn determine_action(name: &str, config_exists: bool, sessions: &SessionSet) -> (action:
    ProjectAction)
    ensures
        action == resolve(name@, config_exists, sessions@),
{
    if sessions.contains(name) {
        ProjectAction::Attach
    } else if config_exists {
        ProjectAction::Start
    } else {
        ProjectAction::Create
    }
}

/// A project whose name is that of a live session is attached to, whether or not it has a
/// configuration.
pub proof fn lemma_live_session_means_attach(
    name: Seq<char>,
    config_exists: bool,
    live: Set<Seq<char>>,
)
    requires
        live.contains(name),
    ensures
        resolve(name, config_exists, live) == ProjectAction::Attach,
{
}

/// A project without a live session is started where it has a configuration and created
/// where it has none.
pub proof fn lemma_no_session_means_start_or_create(name: Seq<char>, live: Set<Seq<char>>)
    requires
        !live.contains(name),
    ensures
        resolve(name, true, live) == ProjectAction::Start,
        resolve(name, false, live) == ProjectAction::Create,
{
}

/// The three outcomes exclude one another and leave no case out: the action says exactly
/// whether a session is live and, where none is, whether a configuration exists.
pub proof fn lemma_action_determines_state(
    name: Seq<char>,
    config_exists: bool,
    live: Set<Seq<char>>,
)
    ensures
        resolve(name, config_exists, live) == ProjectAction::Attach <==> live.contains(name),
        resolve(name, config_exists, live) == ProjectAction::Start <==> !live.contains(name)
            && config_exists,
        resolve(name, config_exists, live) == ProjectAction::Create <==> !live.contains(name)
            && !config_exists,
{
}

/// The word that stands for an action in a match's description.
pub open spec fn label(action: ProjectAction) -> Seq<char> {
    match action {
        ProjectAction::Attach => "attach"@,
        ProjectAction::Start => "start"@,
        ProjectAction::Create => "create"@,
    }
}

/// The word that stands for `action` in a match's description.
pub fn action_label(action: ProjectAction) -> (word: &'static str)
    ensures
        word@ == label(action),
{
    match action {
        ProjectAction::Attach => "attach",
        ProjectAction::Start => "start",
        ProjectAction::Create => "create",
    }
}

} // verus!
