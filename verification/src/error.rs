use vstd::prelude::*;
use vstd::string::*;

verus! {

/// All fallible operations in phonix return this `Result`.
pub type Result<T> = core::result::Result<T, Error>;

/// Errors produced by the phonix core and its adapters.
#[derive(Debug)]
pub enum Error {
    ModelLoad(String),
    ModelShape(String),
    Inference(String),
    Audio(String),
    Resample(String),
    Wav(String),
}

/// The human-readable text of an error: a fixed prefix naming the kind of
/// failure, followed by its context.
pub open spec fn error_text(e: Error) -> Seq<char> {
    match e {
        Error::ModelLoad(s) => "failed to load model: "@ + s@,
        Error::ModelShape(s) => "unexpected model tensor shape: "@ + s@,
        Error::Inference(s) => "inference failed: "@ + s@,
        Error::Audio(s) => "audio device error: "@ + s@,
        Error::Resample(s) => "resample error: "@ + s@,
        Error::Wav(s) => "wav error: "@ + s@,
    }
}

fn prefixed(prefix: &str, context: &String) -> (r: String)
    ensures
        r@ == prefix@ + context@,
{
    let mut r = String::from_str(prefix);
    r.append(context.as_str());
    r
}

impl Error {
    /// Renders the error as text, e.g. `failed to load model: bad path`.
    pub fn to_string(&self) -> (r: String)
        ensures
            r@ == error_text(*self),
    {
        match self {
            Error::ModelLoad(s) => prefixed("failed to load model: ", s),
            Error::ModelShape(s) => prefixed("unexpected model tensor shape: ", s),
            Error::Inference(s) => prefixed("inference failed: ", s),
            Error::Audio(s) => prefixed("audio device error: ", s),
            Error::Resample(s) => prefixed("resample error: ", s),
            Error::Wav(s) => prefixed("wav error: ", s),
        }
    }
}

} // verus!
