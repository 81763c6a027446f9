//! The desktop dialog that asks for the flip.

use crate::jobs::{Spooler, SpoolerView};
use crate::text::texts;
use vstd::prelude::*;
use vstd::string::StringExecFns;

verus! {

/// The programs that can show a dialog.
#[derive(Clone, Copy, Debug, PartialEq, Eq, Structural)]
pub enum Tool {
    Zenity,
    Kdialog,
    Xmessage,
}

/// The programs in the order in which they are tried.
pub open spec fn tools() -> Seq<Tool> {
    seq![Tool::Zenity, Tool::Kdialog, Tool::Xmessage]
}

/// The program to try after so many could not be started.
pub fn candidate(failed: usize) -> (r: Option<Tool>)
    ensures
        r == (if failed < tools().len() {
            Some(tools()[failed as int])
        } else {
            None
        }),
        r == candidate_of(failed as nat),
{
    if failed == 0 {
        Some(Tool::Zenity)
    } else if failed == 1 {
        Some(Tool::Kdialog)
    } else if failed == 2 {
        Some(Tool::Xmessage)
    } else {
        None
    }
}

/// The name of a program.
pub open spec fn program_text(tool: Tool) -> Seq<char> {
    match tool {
        Tool::Zenity => "zenity"@,
        Tool::Kdialog => "kdialog"@,
        Tool::Xmessage => "xmessage"@,
    }
}

/// What the dialog says about a job.
pub open spec fn dialog_text(job: Seq<char>) -> Seq<char> {
    job
        + ": odd pages printed.\nFlip the stack and reload it, then click OK to print the backs."@
}

/// The arguments with which a program shows a text and two buttons.
pub open spec fn dialog_args_text(tool: Tool, text: Seq<char>) -> Seq<Seq<char>> {
    match tool {
        Tool::Zenity => seq![
            "--question"@,
            "--title"@,
            "ipp-duplexd"@,
            "--text"@,
            text,
            "--ok-label"@,
            "OK, print backs"@,
            "--cancel-label"@,
            "Not yet"@,
        ],
        Tool::Kdialog => seq!["--title"@, "ipp-duplexd"@, "--yesno"@, text],
        Tool::Xmessage => seq![
            "-center"@,
            "-buttons"@,
            "OK, print backs:101,Not yet:102"@,
            text,
        ],
    }
}

/// The arguments with which a program asks for the flip of a job.
pub open spec fn asking_args(tool: Tool, job: Seq<char>) -> Seq<Seq<char>> {
    dialog_args_text(tool, dialog_text(job))
}

/// The program to try after so many could not be started.
pub open spec fn candidate_of(failed: nat) -> Option<Tool> {
    if failed < tools().len() {
        Some(tools()[failed as int])
    } else {
        None
    }
}

impl Tool {
    /// The name of the program.
    pub fn program(&self) -> (r: &'static str)
        ensures
            r@ == program_text(*self),
    {
        match self {
            Tool::Zenity => "zenity",
            Tool::Kdialog => "kdialog",
            Tool::Xmessage => "xmessage",
        }
    }

    /// The arguments with which the program asks for the flip of a job.
    pub fn args(&self, job: &str) -> (r: Vec<String>)
        ensures
            texts(r@) == dialog_args_text(*self, dialog_text(job@)),
            texts(r@) == asking_args(*self, job@),
    {
        let mut text = job.to_owned();
        text.append(
            ": odd pages printed.\nFlip the stack and reload it, then click OK to print the backs.",
        );
        let mut out: Vec<String> = Vec::new();
        match self {
            Tool::Zenity => {
                out.push("--question".to_owned());
                out.push("--title".to_owned());
                out.push("ipp-duplexd".to_owned());
                out.push("--text".to_owned());
                out.push(text);
                out.push("--ok-label".to_owned());
                out.push("OK, print backs".to_owned());
                out.push("--cancel-label".to_owned());
                out.push("Not yet".to_owned());
            },
            Tool::Kdialog => {
                out.push("--title".to_owned());
                out.push("ipp-duplexd".to_owned());
                out.push("--yesno".to_owned());
                out.push(text);
            },
            Tool::Xmessage => {
                out.push("-center".to_owned());
                out.push("-buttons".to_owned());
                out.push("OK, print backs:101,Not yet:102".to_owned());
                out.push(text);
            },
        }
        assert(texts(out@) =~= dialog_args_text(*self, dialog_text(job@)));
        out
    }

    /// What to log when the dialog is open.
    pub fn opened(&self) -> (r: String)
        ensures
            r@ == "flip dialog opened via "@ + program_text(*self),
    {
        let mut s = "flip dialog opened via ".to_owned();
        s.append(self.program());
        s
    }
}

/// How a dialog is.
#[derive(Clone, Copy, Debug, PartialEq, Eq)]
pub enum Dialog {
    /// still open
    Open,
    /// closed, with an exit code unless it was killed
    Closed(Option<i32>),
    /// not there any more, or not to be asked
    Gone,
}

/// What to do about a dialog.
#[derive(Clone, Copy, Debug, PartialEq, Eq, Structural)]
pub enum DialogStep {
    /// look again
    Wait,
    /// wake whoever waits for the flip
    Wake,
    /// log that it was dismissed
    Dismissed,
    /// nothing
    Stop,
}

/// Whether the exit code of a program means that OK was clicked.
pub open spec fn confirms(tool: Tool, code: Option<i32>) -> bool {
    code == Some(
        if tool == Tool::Xmessage {
            101i32
        } else {
            0i32
        },
    )
}

/// What to do about a dialog, and what the spooler is after it: OK requests the
/// flip, and any other outcome changes nothing.
pub open spec fn dialog_outcome(sp: SpoolerView, tool: Tool, dialog: Dialog) -> (
    SpoolerView,
    DialogStep,
) {
    match dialog {
        Dialog::Open => (sp, DialogStep::Wait),
        Dialog::Gone => (sp, DialogStep::Stop),
        Dialog::Closed(code) => if confirms(tool, code) {
            (SpoolerView { flip_requested: true, ..sp }, DialogStep::Wake)
        } else {
            (sp, DialogStep::Dismissed)
        },
    }
}

/// Takes how a dialog is and says what to do about it.
pub fn on_dialog(sp: &mut Spooler, tool: Tool, dialog: Dialog) -> (r: DialogStep)
    ensures
        (final(sp)@, r) == dialog_outcome(old(sp)@, tool, dialog),
{
    match dialog {
        Dialog::Open => DialogStep::Wait,
        Dialog::Gone => DialogStep::Stop,
        Dialog::Closed(code) => {
            let ok: i32 = if tool == Tool::Xmessage {
                101
            } else {
                0
            };
            let confirmed = match code {
                Some(c) => c == ok,
                None => false,
            };
            if confirmed {
                sp.trigger_flip();
                DialogStep::Wake
            } else {
                DialogStep::Dismissed
            }
        },
    }
}

/// A dialog never changes a job, however it ends: it cannot cancel one, and the
/// only thing that it does is to request the flip when it is confirmed.
pub proof fn law_dialog_cancels_nothing(sp: SpoolerView, tool: Tool, dialog: Dialog)
    ensures
        dialog_outcome(sp, tool, dialog).0.jobs == sp.jobs,
        dialog_outcome(sp, tool, dialog).0.next_id == sp.next_id,
        dialog_outcome(sp, tool, dialog).0.flip_requested <==> sp.flip_requested || (
        dialog matches Dialog::Closed(code) && confirms(tool, code)),
{
}

/// What comes of a dialog: OK, which xmessage tells by the code 101 and the others by
/// 0, requests the flip and wakes whoever waits for it. Any other end of it, a kill
/// included, changes nothing and is a dismissal, and an open one is looked at again.
pub proof fn law_dialog_is_understood(sp: SpoolerView, tool: Tool, code: Option<i32>)
    ensures
        dialog_outcome(sp, tool, Dialog::Open) == (sp, DialogStep::Wait),
        dialog_outcome(sp, tool, Dialog::Gone) == (sp, DialogStep::Stop),
        (tool == Tool::Xmessage && code == Some(101i32)) || (tool != Tool::Xmessage && code == Some(
            0i32,
        )) ==> dialog_outcome(sp, tool, Dialog::Closed(code)) == (
            SpoolerView { flip_requested: true, ..sp },
            DialogStep::Wake,
        ),
        !((tool == Tool::Xmessage && code == Some(101i32)) || (tool != Tool::Xmessage && code
            == Some(0i32))) ==> dialog_outcome(sp, tool, Dialog::Closed(code)) == (
            sp,
            DialogStep::Dismissed,
        ),
{
}

/// The programs, in the order in which they are tried, and how each shows a text
/// with two buttons.
pub proof fn law_dialogs_are_shown(job: Seq<char>, text: Seq<char>)
    ensures
        tools().len() == 3,
        program_text(tools()[0]) == "zenity"@,
        program_text(tools()[1]) == "kdialog"@,
        program_text(tools()[2]) == "xmessage"@,
        dialog_text(job) == job
            + ": odd pages printed.\nFlip the stack and reload it, then click OK to print the backs."@,
        dialog_args_text(tools()[0], text) == seq![
            "--question"@,
            "--title"@,
            "ipp-duplexd"@,
            "--text"@,
            text,
            "--ok-label"@,
            "OK, print backs"@,
            "--cancel-label"@,
            "Not yet"@,
        ],
        dialog_args_text(tools()[1], text) == seq![
            "--title"@,
            "ipp-duplexd"@,
            "--yesno"@,
            text,
        ],
        dialog_args_text(tools()[2], text) == seq![
            "-center"@,
            "-buttons"@,
            "OK, print backs:101,Not yet:102"@,
            text,
        ],
{
}

/// Every dialog says which job it is about and what to do, whichever program shows it;
/// zenity is tried first, then kdialog, then xmessage, and then there is none.
pub proof fn law_dialog_names_its_job(job: Seq<char>, failed: nat)
    ensures
        ({
            let text = job
                + ": odd pages printed.\nFlip the stack and reload it, then click OK to print the backs."@;
            &&& asking_args(Tool::Zenity, job)[3] == "--text"@
            &&& asking_args(Tool::Zenity, job)[4] == text
            &&& asking_args(Tool::Kdialog, job)[2] == "--yesno"@
            &&& asking_args(Tool::Kdialog, job)[3] == text
            &&& asking_args(Tool::Xmessage, job)[3] == text
        }),
        failed == 0 ==> candidate_of(failed) == Some(Tool::Zenity),
        failed == 1 ==> candidate_of(failed) == Some(Tool::Kdialog),
        failed == 2 ==> candidate_of(failed) == Some(Tool::Xmessage),
        failed > 2 ==> candidate_of(failed) is None,
{
}

} // verus!
