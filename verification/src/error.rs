//! What can go wrong with a session.
use vstd::prelude::*;

verus! {

#[derive(Debug, PartialEq, Eq)]
pub enum VncError {
    /// The server asks for a password and no way to get one was configured.
    NoPassword,
    /// No encoding was configured.
    NoEncoding,
    /// The server did not accept the password.
    WrongPassword,
    /// The server sent image data that no encoding allows.
    InvalidImageData,
    /// The client was closed, or has lost its connection.
    ClientNotRunning,
    /// The connection ended in the middle of a message.
    UnexpectedEof,
    /// Reading or writing the connection failed.
    Io(String),
    /// Anything else, in words.
    General(String),
}

/// A [`VncError`] with its text as a sequence of characters.
pub enum ErrorView {
    NoPassword,
    NoEncoding,
    WrongPassword,
    InvalidImageData,
    ClientNotRunning,
    UnexpectedEof,
    Io(Seq<char>),
    General(Seq<char>),
}

impl View for VncError {
    type V = ErrorView;

    open spec fn view(&self) -> ErrorView {
        match *self {
            VncError::NoPassword => ErrorView::NoPassword,
            VncError::NoEncoding => ErrorView::NoEncoding,
            VncError::WrongPassword => ErrorView::WrongPassword,
            VncError::InvalidImageData => ErrorView::InvalidImageData,
            VncError::ClientNotRunning => ErrorView::ClientNotRunning,
            VncError::UnexpectedEof => ErrorView::UnexpectedEof,
            VncError::Io(text) => ErrorView::Io(text@),
            VncError::General(text) => ErrorView::General(text@),
        }
    }
}

impl ErrorView {
    /// The error in words.
    pub open spec fn text(self) -> Seq<char> {
        match self {
            ErrorView::NoPassword => "Auth is required but no password provided"@,
            ErrorView::NoEncoding => "No VNC encoding selected"@,
            ErrorView::WrongPassword => "Wrong password"@,
            ErrorView::InvalidImageData => "Image data cannot be decoded correctly"@,
            ErrorView::ClientNotRunning => "The VNC client is not running"@,
            ErrorView::UnexpectedEof => "early eof"@,
            ErrorView::Io(text) => text,
            ErrorView::General(text) => "VNC Error with message: "@ + text,
        }
    }
}

impl VncError {
    /// The error in words.
    pub fn message(&self) -> (text: String)
        ensures
            text@ == self@.text(),
    {
        match self {
            VncError::NoPassword => "Auth is required but no password provided".to_owned(),
            VncError::NoEncoding => "No VNC encoding selected".to_owned(),
            VncError::WrongPassword => "Wrong password".to_owned(),
            VncError::InvalidImageData => "Image data cannot be decoded correctly".to_owned(),
            VncError::ClientNotRunning => "The VNC client is not running".to_owned(),
            VncError::UnexpectedEof => "early eof".to_owned(),
            VncError::Io(text) => text.clone(),
            VncError::General(text) => {
                "VNC Error with message: ".to_owned().concat(text.as_str())
            },
        }
    }
}

/// The text of an error ends with the words that it was given, and there are no others where
/// it comes from the connection.
pub proof fn law_words_kept(words: Seq<char>)
    ensures
        ErrorView::Io(words).text() == words,
        ({
            let text = ErrorView::General(words).text();
            &&& text.len() >= words.len()
            &&& text.skip(text.len() - words.len()) == words
        }),
{
    let text = ErrorView::General(words).text();
    assert(text.skip(text.len() - words.len()) =~= words);
}

} // verus!
