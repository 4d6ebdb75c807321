//! The host that the program runs on, and what is asked of it.
//!
//! A browser page has a URL that can be read and changed; a native process
//! has only its command line. The functions here decide what a call means on
//! either host; carrying a [`Request`] out is the caller's part.

use vstd::prelude::*;

verus! {

/// The two kinds of host.
#[derive(Clone, Copy, Debug, PartialEq, Eq, Structural)]
pub enum Host {
    /// A page in a browser: it has a URL with a query string and a fragment.
    Browser,
    /// A native process: it has a command line and no URL.
    Process,
}

/// One thing that the host is asked to do.
#[derive(Debug, PartialEq, Eq)]
pub enum Request {
    /// Create the parameter `name` in the query string, or overwrite it.
    SetParameter { name: String, value: String },
    /// Remove every occurrence of the parameter `name` from the query string.
    DeleteParameter { name: String },
    /// Replace the fragment of the URL.
    SetHash { value: String },
    /// Navigate to `url`, in a new tab where `new_tab` is set.
    OpenLink { url: String, new_tab: bool },
    /// Hand `url` to the default browser of the platform.
    OpenInBrowser { url: String },
}

/// A request with its texts as sequences of characters.
pub enum RequestView {
    SetParameter { name: Seq<char>, value: Seq<char> },
    DeleteParameter { name: Seq<char> },
    SetHash { value: Seq<char> },
    OpenLink { url: Seq<char>, new_tab: bool },
    OpenInBrowser { url: Seq<char> },
}

impl View for Request {
    type V = RequestView;

    open spec fn view(&self) -> RequestView {
        match *self {
            Request::SetParameter { name, value } => RequestView::SetParameter {
                name: name@,
                value: value@,
            },
            Request::DeleteParameter { name } => RequestView::DeleteParameter { name: name@ },
            Request::SetHash { value } => RequestView::SetHash { value: value@ },
            Request::OpenLink { url, new_tab } => RequestView::OpenLink { url: url@, new_tab },
            Request::OpenInBrowser { url } => RequestView::OpenInBrowser { url: url@ },
        }
    }
}

/// The default browser could not be started.
#[derive(Debug, PartialEq, Eq)]
pub struct LinkOpenFailed {
    /// The link that was to be opened.
    pub url: String,
    /// What the platform said went wrong.
    pub error: String,
}

/// The text of the message for a link that could not be opened.
pub open spec fn failure_message(error: Seq<char>, url: Seq<char>) -> Seq<char> {
    "Failed to open url: "@ + error + ", url: `"@ + url + "`"@
}

impl LinkOpenFailed {
    /// The message for the user. It names the error and the link.
    pub fn message(&self) -> (message: String)
        ensures
            message@ == failure_message(self.error@, self.url@),
            message@.len() > 0,
    {
        let mut message = String::from_str("Failed to open url: ");
        message.append(self.error.as_str());
        message.append(", url: `");
        message.append(self.url.as_str());
        message.append("`");
        proof {
            reveal_strlit("`");
        }
        message
    }
}

/// Asks the host to set the parameter `name` of the query string to `value`.
///
/// A process has no query string: there nothing is asked, and that is no error.
pub fn set_program_parameter(host: Host, name: &str, value: &str) -> (request: Option<Request>)
    ensures
        match host {
            Host::Browser => request is Some && request->0@ == (RequestView::SetParameter {
                name: name@,
                value: value@,
            }),
            Host::Process => request is None,
        },
{
    match host {
        Host::Browser => Some(
            Request::SetParameter { name: name.to_owned(), value: value.to_owned() },
        ),
        Host::Process => None,
    }
}

/// Asks the host to remove the parameter `name` from the query string.
///
/// A process has no query string: there nothing is asked, and that is no error.
pub fn delete_program_parameter(host: Host, name: &str) -> (request: Option<Request>)
    ensures
        match host {
            Host::Browser => request is Some && request->0@ == (RequestView::DeleteParameter {
                name: name@,
            }),
            Host::Process => request is None,
        },
{
    match host {
        Host::Browser => Some(Request::DeleteParameter { name: name.to_owned() }),
        Host::Process => None,
    }
}

/// Asks the host to replace the fragment of the URL by `value`.
///
/// A process has no fragment: there nothing is asked, and that is no error.
pub fn set_hash(host: Host, value: &str) -> (request: Option<Request>)
    ensures
        match host {
            Host::Browser => request is Some && request->0@ == (RequestView::SetHash {
                value: value@,
            }),
            Host::Process => request is None,
        },
{
    match host {
        Host::Browser => Some(Request::SetHash { value: value.to_owned() }),
        Host::Process => None,
    }
}

/// The fragment of the current location: the text behind `#` that the browser
/// reported, and the empty text on a process, whatever was reported.
pub fn get_hash(host: Host, reported: &str) -> (hash: String)
    ensures
        match host {
            Host::Browser => hash@ == reported@,
            Host::Process => hash@ == Seq::<char>::empty(),
        },
{
    match host {
        Host::Browser => reported.to_owned(),
        Host::Process => String::new(),
    }
}

/// The parts in their order, with a single space between each two.
pub open spec fn joined(parts: Seq<Seq<char>>) -> Seq<char>
    decreases parts.len(),
{
    if parts.len() == 0 {
        Seq::empty()
    } else if parts.len() == 1 {
        parts[0]
    } else {
        joined(parts.drop_last()) + seq![' '] + parts.last()
    }
}

/// Where a process is, for want of a URL: the path it was started by, or,
/// with `full`, its whole command line, the arguments joined by single spaces.
///
/// `invocation` is the command line, the program's path first. A process
/// started without any argument has the empty path, with `full` and without.
pub fn path(invocation: &Vec<String>, full: bool) -> (path: String)
    ensures
        path@ == if full {
            joined(invocation.deep_view())
        } else if invocation.len() > 0 {
            invocation[0]@
        } else {
            Seq::<char>::empty()
        },
{
    if !full {
        if invocation.len() > 0 {
            return invocation[0].clone();
        }
        return String::new();
    }
    let mut whole = String::new();
    let mut i: usize = 0;
    while i < invocation.len()
        invariant
            i <= invocation.len(),
            whole@ == joined(invocation.deep_view().take(i as int)),
        decreases invocation.len() - i,
    {
        proof {
            let next = invocation.deep_view().take(i + 1);
            assert(next.drop_last() =~= invocation.deep_view().take(i as int));
            assert(next.last() == invocation[i as int]@);
            reveal_strlit(" ");
            assert(" "@ =~= seq![' ']);
        }
        if i > 0 {
            whole.append(" ");
        }
        whole.append(invocation[i].as_str());
        i = i + 1;
    }
    assert(invocation.deep_view().take(i as int) =~= invocation.deep_view());
    whole
}

/// Asks the host to open `url`.
///
/// A browser navigates to it, in a new tab where `new_tab` is set; whether it
/// lets a new tab open is the browser's own affair. A process hands the link to
/// the default browser of the platform, and `new_tab` means nothing there.
pub fn link_open(host: Host, url: &str, new_tab: bool) -> (request: Request)
    ensures
        match host {
            Host::Browser => request@ == (RequestView::OpenLink { url: url@, new_tab }),
            Host::Process => request@ == (RequestView::OpenInBrowser { url: url@ }),
        },
{
    match host {
        Host::Browser => Request::OpenLink { url: url.to_owned(), new_tab },
        Host::Process => Request::OpenInBrowser { url: url.to_owned() },
    }
}

/// What the caller is told once the platform has answered a
/// [`Request::OpenInBrowser`] for `url`: nothing where it went well, and else
/// the failure with the platform's own words. A failure is a value to report,
/// never a reason to stop.
pub fn link_open_outcome(url: &str, outcome: Result<(), String>) -> (result: Result<
    (),
    LinkOpenFailed,
>)
    ensures
        match outcome {
            Ok(_) => result is Ok,
            Err(text) => result is Err && result->Err_0.url@ == url@ && result->Err_0.error@
                == text@,
        },
{
    match outcome {
        Ok(()) => Ok(()),
        Err(text) => Err(LinkOpenFailed { url: url.to_owned(), error: text }),
    }
}

} // verus!
