//! Copying to the clipboard: which programs to try, in which order, and
//! what their outcomes mean. The caller runs each program and reports how
//! it went.
use vstd::prelude::*;
use crate::errors::{CliError, CliErrorView};

verus! {

/// The operating system family the command runs on.
#[derive(Debug, Clone, Copy, PartialEq, Eq)]
pub enum Platform {
    MacOs,
    Windows,
    Other,
}

/// A program that puts its standard input on the clipboard.
#[derive(Debug)]
pub struct ClipboardCommand {
    pub program: String,
    pub args: Vec<String>,
}

/// The view of a [`ClipboardCommand`]: program and arguments.
pub open spec fn command_view(c: ClipboardCommand) -> (Seq<char>, Seq<Seq<char>>) {
    (c.program@, c.args.deep_view())
}

/// The programs tried on each platform, in order.
pub open spec fn clipboard_programs(platform: Platform) -> Seq<(Seq<char>, Seq<Seq<char>>)> {
    match platform {
        Platform::MacOs => seq![("pbcopy"@, Seq::empty())],
        Platform::Windows => seq![("clip"@, Seq::empty())],
        Platform::Other => seq![
            ("wl-copy"@, Seq::empty()),
            ("xclip"@, seq!["-selection"@, "clipboard"@]),
            ("xsel"@, seq!["--clipboard"@, "--input"@]),
        ],
    }
}

fn command(program: &str, args: Vec<String>) -> (c: ClipboardCommand)
    ensures
        c.program@ == program@,
        c.args@ == args@,
{
    ClipboardCommand { program: String::from_str(program), args }
}

/// The programs to try on `platform`, in order.
pub fn clipboard_commands(platform: Platform) -> (commands: Vec<ClipboardCommand>)
    ensures
        commands@.len() == clipboard_programs(platform).len(),
        forall|k: int|
            0 <= k < commands@.len() ==> command_view(#[trigger] commands@[k])
                == clipboard_programs(platform)[k],
{
    match platform {
        Platform::MacOs => {
            let c = command("pbcopy", Vec::new());
            assert(c.args.deep_view() =~= Seq::<Seq<char>>::empty());
            vec![c]
        },
        Platform::Windows => {
            let c = command("clip", Vec::new());
            assert(c.args.deep_view() =~= Seq::<Seq<char>>::empty());
            vec![c]
        },
        Platform::Other => {
            let a = command("wl-copy", Vec::new());
            assert(a.args.deep_view() =~= Seq::<Seq<char>>::empty());
            let b = command("xclip", vec![String::from_str("-selection"), String::from_str("clipboard")]);
            assert(b.args.deep_view() =~= seq!["-selection"@, "clipboard"@]);
            let c = command("xsel", vec![String::from_str("--clipboard"), String::from_str("--input")]);
            assert(c.args.deep_view() =~= seq!["--clipboard"@, "--input"@]);
            vec![a, b, c]
        },
    }
}

/// How running one clipboard program went.
#[derive(Debug)]
pub enum ClipboardOutcome {
    /// The text is on the clipboard.
    Copied,
    /// The program is not installed.
    NotFound,
    /// The program failed, for the reason given.
    Failed(String),
}

/// The view of a [`ClipboardOutcome`].
pub enum ClipboardOutcomeView {
    Copied,
    NotFound,
    Failed(Seq<char>),
}

impl View for ClipboardOutcome {
    type V = ClipboardOutcomeView;

    open spec fn view(&self) -> ClipboardOutcomeView {
        match self {
            ClipboardOutcome::Copied => ClipboardOutcomeView::Copied,
            ClipboardOutcome::NotFound => ClipboardOutcomeView::NotFound,
            ClipboardOutcome::Failed(m) => ClipboardOutcomeView::Failed(m@),
        }
    }
}

/// What to do next about the clipboard.
#[derive(Debug)]
pub enum ClipboardAction {
    /// Run the program at this position of the list.
    Run(usize),
    /// The text was copied.
    Copied,
    /// Copying failed.
    Fail(CliError),
}

/// The view of a [`ClipboardAction`].
pub enum ClipboardActionView {
    Run(nat),
    Copied,
    Fail(CliErrorView),
}

impl View for ClipboardAction {
    type V = ClipboardActionView;

    open spec fn view(&self) -> ClipboardActionView {
        match self {
            ClipboardAction::Run(i) => ClipboardActionView::Run(*i as nat),
            ClipboardAction::Copied => ClipboardActionView::Copied,
            ClipboardAction::Fail(e) => ClipboardActionView::Fail(e@),
        }
    }
}

/// The error when none of the programs is installed.
pub open spec fn no_clipboard_program() -> CliErrorView {
    CliErrorView::Clipboard("No clipboard command found. Install pbcopy, wl-copy, xclip, or xsel."@)
}

/// The next step given how many programs there are and how the last one
/// run went (`None` before the first).
pub open spec fn clipboard_step(count: nat, last: Option<(nat, ClipboardOutcomeView)>) -> ClipboardActionView {
    match last {
        None => if count > 0 {
            ClipboardActionView::Run(0)
        } else {
            ClipboardActionView::Fail(no_clipboard_program())
        },
        Some((i, ClipboardOutcomeView::Copied)) => ClipboardActionView::Copied,
        Some((i, ClipboardOutcomeView::Failed(m))) => ClipboardActionView::Fail(
            CliErrorView::Clipboard(m),
        ),
        Some((i, ClipboardOutcomeView::NotFound)) => if i + 1 < count {
            ClipboardActionView::Run(i + 1)
        } else {
            ClipboardActionView::Fail(no_clipboard_program())
        },
    }
}

/// Decides what to do after the program at position `last.0` of a list of
/// `command_count` programs ran with outcome `last.1`, or what to do first
/// when `last` is `None`: the programs are tried in order until one is
/// installed, and that one's outcome is the result.
pub fn copy_to_clipboard(command_count: usize, last: Option<(usize, ClipboardOutcome)>) -> (action: ClipboardAction)
    requires
        last matches Some((i, _)) ==> i < command_count,
    ensures
        action@ == clipboard_step(
            command_count as nat,
            match last {
                Some((i, o)) => Some((i as nat, o@)),
                None => None,
            },
        ),
{
    match last {
        None => if command_count > 0 {
            ClipboardAction::Run(0)
        } else {
            ClipboardAction::Fail(no_program_error())
        },
        Some((_, ClipboardOutcome::Copied)) => ClipboardAction::Copied,
        Some((_, ClipboardOutcome::Failed(m))) => ClipboardAction::Fail(CliError::Clipboard(m)),
        Some((i, ClipboardOutcome::NotFound)) => if i + 1 < command_count {
            ClipboardAction::Run(i + 1)
        } else {
            ClipboardAction::Fail(no_program_error())
        },
    }
}

fn no_program_error() -> (e: CliError)
    ensures
        e@ == no_clipboard_program(),
{
    CliError::Clipboard(
        String::from_str("No clipboard command found. Install pbcopy, wl-copy, xclip, or xsel."),
    )
}

/// The result of copying when the programs, tried in order, would have the
/// outcomes `outcomes`: the first installed program decides.
pub open spec fn clipboard_result(outcomes: Seq<ClipboardOutcomeView>) -> ClipboardActionView
    decreases outcomes.len(),
{
    if outcomes.len() == 0 {
        ClipboardActionView::Fail(no_clipboard_program())
    } else {
        match outcomes[0] {
            ClipboardOutcomeView::Copied => ClipboardActionView::Copied,
            ClipboardOutcomeView::Failed(m) => ClipboardActionView::Fail(CliErrorView::Clipboard(m)),
            ClipboardOutcomeView::NotFound => clipboard_result(outcomes.drop_first()),
        }
    }
}

/// Running the decision steps from program `i` on, when program `k` has
/// outcome `outcomes[k]`, until a result comes out.
pub open spec fn run_from(outcomes: Seq<ClipboardOutcomeView>, i: nat) -> ClipboardActionView
    decreases outcomes.len() - i,
{
    if i >= outcomes.len() {
        ClipboardActionView::Fail(no_clipboard_program())
    } else {
        match clipboard_step(outcomes.len(), Some((i, outcomes[i as int]))) {
            ClipboardActionView::Run(_) => run_from(outcomes, i + 1),
            other => other,
        }
    }
}

/// Driving the steps over the programs' outcomes tries them in order and
/// ends in the outcome of the first installed one, or in the "no clipboard
/// command" error when none is.
pub proof fn lemma_clipboard_first_installed_decides(outcomes: Seq<ClipboardOutcomeView>)
    ensures
        match clipboard_step(outcomes.len(), None) {
            ClipboardActionView::Run(first) => first == 0 && run_from(outcomes, 0) == clipboard_result(
                outcomes,
            ),
            other => outcomes.len() == 0 && other == clipboard_result(outcomes),
        },
{
    lemma_run_from(outcomes, 0);
    assert(outcomes.skip(0) =~= outcomes);
}

proof fn lemma_run_from(outcomes: Seq<ClipboardOutcomeView>, i: nat)
    requires
        i <= outcomes.len(),
    ensures
        run_from(outcomes, i) == clipboard_result(outcomes.skip(i as int)),
    decreases outcomes.len() - i,
{
    if i < outcomes.len() {
        lemma_run_from(outcomes, i + 1);
        assert(outcomes.skip(i as int).drop_first() =~= outcomes.skip((i + 1) as int));
        assert(outcomes.skip(i as int)[0] == outcomes[i as int]);
    }
}

} // verus!
