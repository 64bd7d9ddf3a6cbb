//! The registry: where a package's metadata lives and what a reply says.

use vstd::prelude::*;
use vstd::string::StringExecFns;
use vstd::utf8::encode_utf8;
use crate::text::{hex_digit, hex_str};

verus! {

/// The registry that is asked where no other is configured.
pub const DEFAULT_REGISTRY: &'static str = "https://registry.npmjs.org/";

/// The seconds after which a request that has no answer counts as failed,
/// where no other time is configured.
pub const DEFAULT_TIMEOUT_SECS: u64 = 30;

/// Why the latest version of a package is not known.
#[derive(Clone, Copy, Debug, PartialEq, Eq, Structural)]
pub enum FetchError {
    /// The registry has no such package.
    NotFound,
    /// The registry could not be reached, or did not answer in time.
    Transport,
    /// The registry answered, but not with the metadata of a package.
    Malformed,
}

/// What came back from one request to the registry.
#[derive(Clone, Debug, PartialEq, Eq)]
pub enum Reply {
    /// No answer: the connection failed or timed out.
    Failed,
    /// An answer, with its status code and its body.
    Answered { status: u16, body: String },
}

/// The mathematical value of a [`Reply`].
pub enum ReplyModel {
    Failed,
    Answered { status: int, body: Seq<char> },
}

impl View for Reply {
    type V = ReplyModel;

    open spec fn view(&self) -> ReplyModel {
        match self {
            Reply::Failed => ReplyModel::Failed,
            Reply::Answered { status, body } => ReplyModel::Answered {
                status: *status as int,
                body: body@,
            },
        }
    }
}

/// A character that stands for itself in a package's address: a letter or
/// digit of ASCII, or one of `-`, `.`, `_`, `~`, `@`.
pub open spec fn is_plain(c: char) -> bool {
    ||| ('a' <= c && c <= 'z')
    ||| ('A' <= c && c <= 'Z')
    ||| ('0' <= c && c <= '9')
    ||| c == '-'
    ||| c == '.'
    ||| c == '_'
    ||| c == '~'
    ||| c == '@'
}

/// Each byte as `%` and two hexadecimal digits.
pub open spec fn percent_encoded(bytes: Seq<u8>) -> Seq<char>
    decreases bytes.len(),
{
    if bytes.len() == 0 {
        Seq::empty()
    } else {
        percent_encoded(bytes.drop_last()) + seq![
            '%',
            hex_digit(bytes.last() as int / 16),
            hex_digit(bytes.last() as int % 16),
        ]
    }
}

/// One character of a package's name as it stands in the address: itself
/// where it is plain, else its UTF-8 bytes, percent-encoded.
pub open spec fn escaped_char(c: char) -> Seq<char> {
    if is_plain(c) {
        seq![c]
    } else {
        percent_encoded(encode_utf8(seq![c]))
    }
}

/// A package's name as it stands in the address.
pub open spec fn escaped(name: Seq<char>) -> Seq<char>
    decreases name.len(),
{
    if name.len() == 0 {
        Seq::empty()
    } else {
        escaped(name.drop_last()) + escaped_char(name.last())
    }
}

fn is_plain_char(c: char) -> (r: bool)
    ensures
        r == is_plain(c),
{
    ('a' <= c && c <= 'z') || ('A' <= c && c <= 'Z') || ('0' <= c && c <= '9') || c == '-'
        || c == '.' || c == '_' || c == '~' || c == '@'
}

fn push_percent_encoded(out: &mut String, bytes: &[u8])
    ensures
        final(out)@ == old(out)@ + percent_encoded(bytes@),
{
    let mut i: usize = 0;
    while i < bytes.len()
        invariant
            i <= bytes.len(),
            out@ == old(out)@ + percent_encoded(bytes@.take(i as int)),
        decreases bytes.len() - i,
    {
        let b: u8 = bytes[i];
        proof {
            reveal_strlit("%");
            assert(bytes@.take(i + 1).drop_last() =~= bytes@.take(i as int));
        }
        let ghost before = out@;
        out.append("%");
        out.append(hex_str(b / 16));
        out.append(hex_str(b % 16));
        assert(out@ =~= before + seq!['%', hex_digit(b as int / 16), hex_digit(b as int % 16)]);
        i += 1;
    }
    assert(bytes@.take(bytes@.len() as int) =~= bytes@);
}

/// The address of a package's metadata: the registry's base address, then
/// the package's name with every character that is not plain
/// percent-encoded.
pub fn package_url(base: &str, name: &str) -> (url: String)
    ensures
        url@ == base@ + escaped(name@),
{
    let mut url = String::from_str(base);
    let n: usize = name.unicode_len();
    let mut i: usize = 0;
    while i < n
        invariant
            n == name@.len(),
            i <= n,
            url@ == base@ + escaped(name@.take(i as int)),
        decreases n - i,
    {
        let c: char = name.get_char(i);
        let piece = name.substring_char(i, i + 1);
        proof {
            assert(name@.take(i + 1).drop_last() =~= name@.take(i as int));
            assert(piece@ =~= seq![c]);
        }
        if is_plain_char(c) {
            url.append(piece);
        } else {
            push_percent_encoded(&mut url, piece.as_bytes());
        }
        assert(url@ =~= base@ + escaped(name@.take(i + 1)));
        i += 1;
    }
    assert(name@.take(n as int) =~= name@);
    url
}

/// Where the latest version stands in a package's metadata: the text
/// `latest` of the object `distTags`, as a JSON pointer. A registry that
/// writes it elsewhere is read with [`fetch_outcome_at`].
pub const LATEST_POINTER: &'static str = "/distTags/latest";

/// The text that stands in the JSON document `body` at the place that the
/// JSON pointer `pointer` names; `None` where `body` is no JSON document
/// or holds no text there.
pub uninterp spec fn json_text_at(body: Seq<char>, pointer: Seq<char>) -> Option<Seq<char>>;

/// Reads `body` with `serde_json::from_str` and takes the text that
/// `serde_json::Value::pointer` finds at `pointer`. Nothing is claimed of
/// how the document is read: the result is the value that
/// [`json_text_at`] names.
#[verifier::external_body]
fn read_json_text(body: &str, pointer: &str) -> (text: Option<String>)
    ensures
        text.is_some() == json_text_at(body@, pointer@).is_some(),
        text matches Some(t) ==> t@ == json_text_at(body@, pointer@).unwrap(),
{
    let document: serde_json::Value = serde_json::from_str(body).ok()?;
    Some(document.pointer(pointer)?.as_str()?.to_string())
}

/// The `latest` tag of a package's metadata: the text at
/// [`LATEST_POINTER`], and nothing else.
pub open spec fn latest_tag(body: Seq<char>) -> Option<Seq<char>> {
    json_text_at(body, LATEST_POINTER@)
}

/// The `latest` tag of a package's metadata.
pub fn read_latest_tag(body: &str) -> (tag: Option<String>)
    ensures
        tag.is_some() == latest_tag(body@).is_some(),
        tag matches Some(t) ==> t@ == latest_tag(body@).unwrap(),
{
    read_json_text(body, LATEST_POINTER)
}

/// The text at `pointer` in the body of a reply; none where there is no
/// reply.
pub open spec fn tag_at(reply: ReplyModel, pointer: Seq<char>) -> Option<Seq<char>> {
    match reply {
        ReplyModel::Failed => None,
        ReplyModel::Answered { status, body } => json_text_at(body, pointer),
    }
}

/// What a reply says of a package's latest version where the registry
/// writes it at `pointer`: as [`reading`], with the tag taken from there.
pub open spec fn reading_at(reply: ReplyModel, pointer: Seq<char>) -> Result<Seq<char>, FetchError> {
    reading_with(reply, tag_at(reply, pointer))
}

/// What a reply says of a package's latest version. No answer is a
/// transport failure. Status 404 means that the package does not exist.
/// Status 200 carries the metadata, from which the `latest` tag is taken
/// as [`latest_tag`] says; a body without it is malformed, and so is any
/// other status.
pub open spec fn reading(reply: ReplyModel) -> Result<Seq<char>, FetchError> {
    match reply {
        ReplyModel::Failed => Err(FetchError::Transport),
        ReplyModel::Answered { status, body } => if status == 404 {
            Err(FetchError::NotFound)
        } else if status == 200 {
            match latest_tag(body) {
                Some(tag) => Ok(tag),
                None => Err(FetchError::Malformed),
            }
        } else {
            Err(FetchError::Malformed)
        },
    }
}

/// Reading a reply at [`LATEST_POINTER`] is reading it.
pub proof fn lemma_reading_at_default(reply: ReplyModel)
    ensures
        reading_at(reply, LATEST_POINTER@) == reading(reply),
{
}

/// What is made of a reply once the `latest` tag of its body, if it has
/// one, is known.
pub open spec fn reading_with(reply: ReplyModel, tag: Option<Seq<char>>) -> Result<
    Seq<char>,
    FetchError,
> {
    match reply {
        ReplyModel::Failed => Err(FetchError::Transport),
        ReplyModel::Answered { status, body } => if status == 404 {
            Err(FetchError::NotFound)
        } else if status == 200 {
            match tag {
                Some(tag) => Ok(tag),
                None => Err(FetchError::Malformed),
            }
        } else {
            Err(FetchError::Malformed)
        },
    }
}

/// The mathematical value of a fetch's outcome.
pub open spec fn outcome_model(outcome: Result<String, FetchError>) -> Result<
    Seq<char>,
    FetchError,
> {
    match outcome {
        Ok(v) => Ok(v@),
        Err(e) => Err(e),
    }
}

/// Decides what a reply says, given the `latest` tag that was found in its
/// body.
pub fn interpret(reply: &Reply, tag: Option<String>) -> (outcome: Result<String, FetchError>)
    ensures
        outcome_model(outcome) == reading_with(
            reply@,
            match tag {
                Some(t) => Some(t@),
                None => None,
            },
        ),
{
    match reply {
        Reply::Failed => Err(FetchError::Transport),
        Reply::Answered { status, body } => {
            if *status == 404 {
                Err(FetchError::NotFound)
            } else if *status == 200 {
                match tag {
                    Some(t) => Ok(t),
                    None => Err(FetchError::Malformed),
                }
            } else {
                Err(FetchError::Malformed)
            }
        },
    }
}

/// The latest version that a reply names where the registry writes it at
/// `pointer`, or why it names none.
pub fn fetch_outcome_at(reply: &Reply, pointer: &str) -> (outcome: Result<String, FetchError>)
    ensures
        outcome_model(outcome) == reading_at(reply@, pointer@),
{
    let tag = match reply {
        Reply::Failed => None,
        Reply::Answered { status, body } => read_json_text(body.as_str(), pointer),
    };
    interpret(reply, tag)
}

/// The latest version that a reply names, or why it names none.
pub fn fetch_outcome(reply: &Reply) -> (outcome: Result<String, FetchError>)
    ensures
        outcome_model(outcome) == reading(reply@),
{
    proof {
        lemma_reading_at_default(reply@);
    }
    fetch_outcome_at(reply, LATEST_POINTER)
}

} // verus!
