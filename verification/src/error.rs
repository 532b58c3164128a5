use vstd::prelude::*;
use vstd::string::StringExecFns;

verus! {

/// `serde_json::Error`: why a text was not accepted as JSON, or a value not
/// written as JSON. Nothing is claimed of what it holds; it is carried along.
#[verifier::external_type_specification]
#[verifier::external_body]
pub struct ExJsonError(serde_json::Error);

/// Why an operation on the store was refused.
#[derive(Debug)]
pub enum PwError {
    /// No file stands at the path, given as text.
    FileNotFound(String),
    /// A file already stands at the path, given as text.
    FileAlreadyExists(String),
    /// The cipher reported a failure.
    ScryptError(),
    /// The decrypted content, given as text, is no list of entries.
    InvalidJson(String, serde_json::Error),
    /// No entry has the name asked for.
    NotFound(),
    /// An entry of that name is already there.
    AlreadyExists(),
}

/// A refusal as contracts speak of it.
pub ghost enum Refusal {
    FileNotFound(Seq<char>),
    FileAlreadyExists(Seq<char>),
    ScryptError,
    InvalidJson(Seq<char>, serde_json::Error),
    NotFound,
    AlreadyExists,
}

impl View for PwError {
    type V = Refusal;

    open spec fn view(&self) -> Refusal {
        match *self {
            PwError::FileNotFound(file) => Refusal::FileNotFound(file@),
            PwError::FileAlreadyExists(file) => Refusal::FileAlreadyExists(file@),
            PwError::ScryptError() => Refusal::ScryptError,
            PwError::InvalidJson(text, cause) => Refusal::InvalidJson(text@, cause),
            PwError::NotFound() => Refusal::NotFound,
            PwError::AlreadyExists() => Refusal::AlreadyExists,
        }
    }
}

/// The message of a refusal, as contracts speak of it.
pub open spec fn message_spec(r: Refusal) -> Seq<char> {
    match r {
        Refusal::FileNotFound(file) => "File not found: "@ + file,
        Refusal::FileAlreadyExists(file) => "File already exists: "@ + file,
        Refusal::ScryptError => "Scrypt error"@,
        Refusal::InvalidJson(text, _) => "Invalid JSON "@ + text,
        Refusal::NotFound => "Password not found"@,
        Refusal::AlreadyExists => "Password already exists"@,
    }
}

impl PwError {
    /// The refusal in words, for the one who asked.
    pub fn message(&self) -> (text: String)
        ensures
            text@ == message_spec(self@),
    {
        match self {
            PwError::FileNotFound(file) => "File not found: ".to_owned().concat(file.as_str()),
            PwError::FileAlreadyExists(file) => "File already exists: ".to_owned().concat(
                file.as_str(),
            ),
            PwError::ScryptError() => "Scrypt error".to_owned(),
            PwError::InvalidJson(text, _) => "Invalid JSON ".to_owned().concat(text.as_str()),
            PwError::NotFound() => "Password not found".to_owned(),
            PwError::AlreadyExists() => "Password already exists".to_owned(),
        }
    }
}

} // verus!
