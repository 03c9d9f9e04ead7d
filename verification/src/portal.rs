//! Camera permission through the desktop portal, the way GNOME applications
//! ask for it: what to ask next, and what the answers amount to.

use vstd::prelude::*;

verus! {

/// A character of an application id, dots apart.
pub open spec fn id_char(c: char) -> bool {
    'a' <= c <= 'z' || 'A' <= c <= 'Z' || '0' <= c <= '9' || c == '-' || c == '_'
}

/// A character that can start a segment of an application id.
pub open spec fn starts_segment(c: char) -> bool {
    id_char(c) && !('0' <= c <= '9')
}

/// An application id: two or more segments parted by dots, none of them empty
/// or starting with a digit, of letters, digits and underscores, with dashes
/// in the last one only, in up to 255 characters.
pub open spec fn is_app_id(s: Seq<char>) -> bool {
    &&& 0 < s.len() <= 255
    &&& forall|i: int| 0 <= i < s.len() ==> id_char(#[trigger] s[i]) || s[i] == '.'
    &&& s.contains('.')
    &&& starts_segment(s[0])
    &&& forall|i: int| 0 <= i < s.len() && #[trigger] s[i] == '.' ==> i + 1 < s.len() && starts_segment(s[i + 1])
    &&& forall|i: int, j: int| 0 <= i < j < s.len() && #[trigger] s[i] == '-' ==> #[trigger] s[j] != '.'
}

/// `ashpd::AppID::try_from` takes a text that is an application id, and
/// nothing else.
#[verifier::external_body]
fn valid_app_id(id: &str) -> (valid: bool)
    ensures
        valid == is_app_id(id@),
{
    ashpd::AppID::try_from(id).is_ok()
}

/// What the user decided.
#[derive(Debug)]
pub enum Access {
    /// With a remote of its own when the cameras come through PipeWire.
    Granted { remote: bool },
    Denied,
    /// No portal, or no camera interface on it. Outside a sandbox the
    /// application can still reach the cameras itself, so this is not fatal
    /// there.
    Unavailable(String),
}

/// What has happened so far.
#[derive(Debug)]
pub enum Answer {
    /// Nothing. `skip` tells whether OBSCURA_SKIP_PORTAL is set.
    Start { sandboxed: bool, skip: bool },
    /// The portal knows the application, or would not hear of it.
    Registered,
    /// The camera interface is there, or why not.
    Connected(Result<(), String>),
    /// The user agreed. `pipewire` tells whether cameras come through it.
    Agreed { pipewire: bool },
    /// The user did not, or closed the dialog.
    Refused,
    /// The question could not be put.
    Failed(String),
    /// The remote was opened, or why not.
    Remote(Result<(), String>),
}

/// What to do next.
#[derive(Debug)]
pub enum Ask {
    /// Give the portal the application's id, to store the permission under:
    /// host applications have none of their own.
    Register,
    /// Reach the portal's camera interface.
    Connect,
    /// Ask the user.
    Question,
    OpenRemote,
    Done(Access),
}

/// What follows from an answer. `registers` tells whether the id is one that
/// a portal takes.
pub open spec fn follows(answer: Answer, registers: bool, next: Ask) -> bool {
    match answer {
        Answer::Start { sandboxed, skip } => if !sandboxed && skip {
            next matches Ask::Done(Access::Unavailable(why)) && why@ == "OBSCURA_SKIP_PORTAL is set"@
        } else if !sandboxed && registers {
            next is Register
        } else {
            next is Connect
        },
        Answer::Registered => next is Connect,
        Answer::Connected(Ok(_)) => next is Question,
        Answer::Connected(Err(e)) => next == Ask::Done(Access::Unavailable(e)),
        Answer::Agreed { pipewire } => if pipewire {
            next is OpenRemote
        } else {
            next == Ask::Done(Access::Granted { remote: false })
        },
        Answer::Refused => next == Ask::Done(Access::Denied),
        Answer::Failed(e) => next == Ask::Done(Access::Unavailable(e)),
        Answer::Remote(Ok(_)) => next == Ask::Done(Access::Granted { remote: true }),
        Answer::Remote(Err(e)) => next matches Ask::Done(Access::Unavailable(why)) && why@ == "no PipeWire remote: "@ + e@,
    }
}

/// Ask for access to the cameras, one step at a time, in the name of the
/// application `id`. Development runs can skip the portal: a nested or
/// headless compositor has no access dialog, and the portal reports that
/// exactly like a user saying no.
pub fn request_access(answer: Answer, id: &str) -> (next: Ask)
    ensures
        follows(answer, is_app_id(id@), next),
{
    match answer {
        Answer::Start { sandboxed, skip } => {
            if !sandboxed && skip {
                Ask::Done(Access::Unavailable(String::from_str("OBSCURA_SKIP_PORTAL is set")))
            } else if !sandboxed && valid_app_id(id) {
                Ask::Register
            } else {
                Ask::Connect
            }
        },
        Answer::Registered => Ask::Connect,
        Answer::Connected(r) => match r {
            Ok(_) => Ask::Question,
            Err(e) => Ask::Done(Access::Unavailable(e)),
        },
        Answer::Agreed { pipewire } => {
            if pipewire {
                Ask::OpenRemote
            } else {
                Ask::Done(Access::Granted { remote: false })
            }
        },
        Answer::Refused => Ask::Done(Access::Denied),
        Answer::Failed(e) => Ask::Done(Access::Unavailable(e)),
        Answer::Remote(r) => match r {
            Ok(_) => Ask::Done(Access::Granted { remote: true }),
            Err(e) => {
                let mut why: String = String::from_str("no PipeWire remote: ");
                why.append(e.as_str());
                Ask::Done(Access::Unavailable(why))
            },
        },
    }
}

/// Access is granted only once the user agreed, with a remote where cameras
/// come through PipeWire, and denied only where the user refused.
pub proof fn law_access_is_the_users(answer: Answer, registers: bool, next: Ask)
    requires
        follows(answer, registers, next),
    ensures
        next matches Ask::Done(Access::Granted { remote }) ==> {
            ||| !remote && answer == (Answer::Agreed { pipewire: false })
            ||| remote && (answer matches Answer::Remote(Ok(_)))
        },
        (next matches Ask::Done(Access::Denied)) <==> answer is Refused,
        next is Question <==> (answer matches Answer::Connected(Ok(_))),
        next is OpenRemote <==> answer == (Answer::Agreed { pipewire: true }),
        next is Register <==> registers && answer == (Answer::Start { sandboxed: false, skip: false }),
        answer matches Answer::Start { sandboxed, skip } ==> (sandboxed || !skip ==> next is Register || next is Connect),
{
}

} // verus!
