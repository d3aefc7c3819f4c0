use ytx::clipboard::{clipboard_commands, copy_to_clipboard, ClipboardAction, ClipboardOutcome, Platform};
use ytx::errors::CliError;

#[test]
fn clipboard_programs_per_platform() {
    let mac = clipboard_commands(Platform::MacOs);
    assert_eq!(mac.len(), 1);
    assert_eq!(mac[0].program, "pbcopy");
    assert!(mac[0].args.is_empty());
    let win = clipboard_commands(Platform::Windows);
    assert_eq!(win[0].program, "clip");
    let other = clipboard_commands(Platform::Other);
    let names: Vec<&str> = other.iter().map(|c| c.program.as_str()).collect();
    assert_eq!(names, ["wl-copy", "xclip", "xsel"]);
    assert_eq!(other[1].args, ["-selection", "clipboard"]);
    assert_eq!(other[2].args, ["--clipboard", "--input"]);
}

#[test]
fn copy_tries_programs_in_order() {
    assert!(matches!(copy_to_clipboard(3, None), ClipboardAction::Run(0)));
    assert!(matches!(copy_to_clipboard(3, Some((0, ClipboardOutcome::NotFound))), ClipboardAction::Run(1)));
    assert!(matches!(copy_to_clipboard(3, Some((1, ClipboardOutcome::Copied))), ClipboardAction::Copied));
    match copy_to_clipboard(3, Some((1, ClipboardOutcome::Failed("boom".to_string())))) {
        ClipboardAction::Fail(CliError::Clipboard(m)) => assert_eq!(m, "boom"),
        other => panic!("unexpected {other:?}"),
    }
}

#[test]
fn copy_without_any_program_fails() {
    for action in [copy_to_clipboard(0, None), copy_to_clipboard(2, Some((1, ClipboardOutcome::NotFound)))] {
        match action {
            ClipboardAction::Fail(CliError::Clipboard(m)) => {
                assert_eq!(m, "No clipboard command found. Install pbcopy, wl-copy, xclip, or xsel.")
            }
            other => panic!("unexpected {other:?}"),
        }
    }
}

fn drive(outcomes: &[&str]) -> (Vec<usize>, ClipboardAction) {
    let mut ran = Vec::new();
    let mut action = copy_to_clipboard(outcomes.len(), None);
    loop {
        match action {
            ClipboardAction::Run(i) => {
                ran.push(i);
                let outcome = match outcomes[i] {
                    "ok" => ClipboardOutcome::Copied,
                    "missing" => ClipboardOutcome::NotFound,
                    other => ClipboardOutcome::Failed(other.to_string()),
                };
                action = copy_to_clipboard(outcomes.len(), Some((i, outcome)));
            }
            done => return (ran, done),
        }
    }
}

#[test]
fn clipboard_first_installed_program_decides() {
    let (ran, action) = drive(&["missing", "ok", "broken"]);
    assert_eq!(ran, [0, 1]);
    assert!(matches!(action, ClipboardAction::Copied));
    let (ran, action) = drive(&["missing", "broken", "ok"]);
    assert_eq!(ran, [0, 1]);
    assert!(matches!(action, ClipboardAction::Fail(CliError::Clipboard(ref m)) if m == "broken"));
    let (ran, action) = drive(&["missing", "missing"]);
    assert_eq!(ran, [0, 1]);
    assert!(matches!(action, ClipboardAction::Fail(CliError::Clipboard(_))));
}
