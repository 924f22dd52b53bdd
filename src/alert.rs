//! Alert dialogs: the text a dialog shows, and the response that a
//! platform's answer stands for.
use vstd::prelude::*;

verus! {

/// The button the user chose.
#[derive(Clone, Copy, Debug, PartialEq, Eq, Structural)]
pub enum Response {
    Default,
    Cancel,
}

/// What an alert shows: a title, a message, the default button's label and,
/// when given, the cancel button's label.
#[derive(Debug)]
pub struct AlertDialog {
    pub title: String,
    pub msg: String,
    pub default_button: String,
    pub cancel_button: Option<String>,
}

pub open spec fn default_label(default_button: Option<&str>) -> Seq<char> {
    match default_button {
        Some(d) => if d@.len() == 0 {
            "OK"@
        } else {
            d@
        },
        None => "OK"@,
    }
}

/// The dialog for an alert: the title defaults to "AutoPilot Alert", and an
/// absent or empty default button is labelled "OK". Without a cancel button
/// only the default button is shown.
pub fn alert(msg: &str, title: Option<&str>, default_button: Option<&str>, cancel_button: Option<
    &str,
>) -> (r: AlertDialog)
    ensures
        r.msg@ == msg@,
        r.title@ == match title {
            Some(t) => t@,
            None => "AutoPilot Alert"@,
        },
        r.default_button@ == default_label(default_button),
        r.cancel_button.is_some() == cancel_button.is_some(),
        r.cancel_button matches Some(c) ==> c@ == cancel_button.unwrap()@,
{
    let title = match title {
        Some(t) => t.to_owned(),
        None => "AutoPilot Alert".to_owned(),
    };
    let default_button = match default_button {
        Some(d) => if d.is_empty() {
            "OK".to_owned()
        } else {
            d.to_owned()
        },
        None => "OK".to_owned(),
    };
    let cancel_button = match cancel_button {
        Some(c) => Some(c.to_owned()),
        None => None,
    };
    AlertDialog { title, msg: msg.to_owned(), default_button, cancel_button }
}

/// The response of an alert whose dialog gave `answer`: a dialog that
/// could not be shown counts as cancelled.
pub fn alert_response(answer: Option<Response>) -> (r: Response)
    ensures
        r == match answer {
            Some(a) => a,
            None => Response::Cancel,
        },
{
    match answer {
        Some(a) => a,
        None => Response::Cancel,
    }
}

/// The answer of a message program that exits with the number of the chosen
/// button: 2 is the default button, any other code cancels; `None` when it
/// gave no exit code.
pub fn response_from_exit_code(code: Option<i32>) -> (r: Option<Response>)
    ensures
        r == match code {
            Some(2) => Some(Response::Default),
            Some(_) => Some(Response::Cancel),
            None => None,
        },
{
    match code {
        Some(c) => if c == 2 {
            Some(Response::Default)
        } else {
            Some(Response::Cancel)
        },
        None => None,
    }
}

impl Response {
    /// The answer in a user-notification's response flags: 0 is the default
    /// button, 1 (alternate) and 3 (cancel) cancel; `None` for anything else.
    pub fn from_flags(flags: u64) -> (r: Option<Response>)
        ensures
            r == if flags == 0 {
                Some(Response::Default)
            } else if flags == 1 || flags == 3 {
                Some(Response::Cancel)
            } else {
                None
            },
    {
        if flags == 0 {
            Some(Response::Default)
        } else if flags == 1 || flags == 3 {
            Some(Response::Cancel)
        } else {
            None
        }
    }
}

} // verus!
