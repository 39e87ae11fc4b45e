//! Error type shared by every component of the library.

use vstd::prelude::*;
use crate::strutil::{push_str_chars, string_from_chars};

verus! {

/// The error kinds of the application.  Each variant carries a descriptive
/// message.  Client-induced errors (a bad index, an unknown list name, a
/// malformed request body) are reported as `Internal`; every other variant
/// is server-induced.
#[derive(Debug, Clone)]
pub enum ProxyCatError {
    Io(String),
    Windows(String),
    Pac(String),
    Logging(String),
    Icon(String),
    MutexPoisoned(String),
    TrayIcon(String),
    Menu(String),
    Network(String),
    Internal(String),
}

/// The HTTP status code that the control plane answers with for an error:
/// client-induced errors get 400, server-induced errors get 500.
pub open spec fn spec_http_status(e: ProxyCatError) -> u16 {
    match e {
        ProxyCatError::Internal(_) => 400u16,
        _ => 500u16,
    }
}

/// The descriptive text of an error: its category, a colon, and the message
/// it carries.
pub open spec fn spec_message(e: ProxyCatError) -> Seq<char> {
    match e {
        ProxyCatError::Io(m) => "IO error: "@ + m@,
        ProxyCatError::Windows(m) => "Windows error: "@ + m@,
        ProxyCatError::Pac(m) => "PAC error: "@ + m@,
        ProxyCatError::Logging(m) => "Logging error: "@ + m@,
        ProxyCatError::Icon(m) => "Icon error: "@ + m@,
        ProxyCatError::MutexPoisoned(m) => "Mutex lock error: "@ + m@,
        ProxyCatError::TrayIcon(m) => "Tray icon error: "@ + m@,
        ProxyCatError::Menu(m) => "Menu error: "@ + m@,
        ProxyCatError::Network(m) => "Network error: "@ + m@,
        ProxyCatError::Internal(m) => "Internal error: "@ + m@,
    }
}

impl ProxyCatError {
    /// Maps an error to the HTTP status code of the response that reports it.
    pub fn http_status(&self) -> (r: u16)
        ensures
            r == spec_http_status(*self),
    {
        match self {
            ProxyCatError::Internal(_) => 400u16,
            _ => 500u16,
        }
    }

    /// The descriptive text of the error.
    pub fn message(&self) -> (r: String)
        ensures
            r@ == spec_message(*self),
    {
        let mut buf: Vec<char> = Vec::new();
        match self {
            ProxyCatError::Io(m) => {
                push_str_chars(&mut buf, "IO error: ");
                push_str_chars(&mut buf, m.as_str());
            },
            ProxyCatError::Windows(m) => {
                push_str_chars(&mut buf, "Windows error: ");
                push_str_chars(&mut buf, m.as_str());
            },
            ProxyCatError::Pac(m) => {
                push_str_chars(&mut buf, "PAC error: ");
                push_str_chars(&mut buf, m.as_str());
            },
            ProxyCatError::Logging(m) => {
                push_str_chars(&mut buf, "Logging error: ");
                push_str_chars(&mut buf, m.as_str());
            },
            ProxyCatError::Icon(m) => {
                push_str_chars(&mut buf, "Icon error: ");
                push_str_chars(&mut buf, m.as_str());
            },
            ProxyCatError::MutexPoisoned(m) => {
                push_str_chars(&mut buf, "Mutex lock error: ");
                push_str_chars(&mut buf, m.as_str());
            },
            ProxyCatError::TrayIcon(m) => {
                push_str_chars(&mut buf, "Tray icon error: ");
                push_str_chars(&mut buf, m.as_str());
            },
            ProxyCatError::Menu(m) => {
                push_str_chars(&mut buf, "Menu error: ");
                push_str_chars(&mut buf, m.as_str());
            },
            ProxyCatError::Network(m) => {
                push_str_chars(&mut buf, "Network error: ");
                push_str_chars(&mut buf, m.as_str());
            },
            ProxyCatError::Internal(m) => {
                push_str_chars(&mut buf, "Internal error: ");
                push_str_chars(&mut buf, m.as_str());
            },
        }
        string_from_chars(&buf)
    }
}

} // verus!
