//! File-system paths held as text: joining a relative path onto a base, and
//! asking whether something exists at a path.
use vstd::prelude::*;

use crate::text::chars_of;

verus! {

/// `base` joined with `rel` as `Path::join` joins them on Unix: an absolute
/// `rel` replaces `base`; otherwise a `/` is put between the two unless `base`
/// is empty or already ends with one.
pub open spec fn join_path(base: Seq<char>, rel: Seq<char>) -> Seq<char> {
    if rel.len() > 0 && rel[0] == '/' {
        rel
    } else if base.len() > 0 && base.last() != '/' {
        base + seq!['/'] + rel
    } else {
        base + rel
    }
}

/// `base` joined with `rel` (`Path::join`).
pub fn path_join(base: &str, rel: &str) -> (r: String)
    ensures
        r@ == join_path(base@, rel@),
{
    let b = chars_of(base);
    let r = chars_of(rel);
    if r.len() > 0 && r[0] == '/' {
        return rel.to_owned();
    }
    let mut out = base.to_owned();
    if b.len() > 0 && b[b.len() - 1] != '/' {
        out.append("/");
        proof {
            reveal_strlit("/");
        }
    }
    out.append(rel);
    proof {
        if b@.len() > 0 && b@.last() != '/' {
            assert(base@ + "/"@ + rel@ =~= base@ + seq!['/'] + rel@);
        }
    }
    out
}

/// The answer to whether something exists at a path, together with the
/// path that was asked about. Only [`path_exists`] makes one, so an answer
/// always speaks of the path it carries.
pub struct PathAnswer {
    path: String,
    exists: bool,
}

impl PathAnswer {
    /// The path that was asked about.
    pub closed spec fn asked(&self) -> Seq<char> {
        self.path@
    }

    /// Whether something was found there.
    pub closed spec fn found(&self) -> bool {
        self.exists
    }

    /// Whether something was found at the path.
    pub fn present(&self) -> (b: bool)
        ensures
            b == self.found(),
    {
        self.exists
    }

    /// The path that was asked about.
    pub fn path(&self) -> (p: &String)
        ensures
            p@ == self.asked(),
    {
        &self.path
    }
}

/// Whether `model` and `config` answer for a voice's `paths` (model file,
/// config file): the model file was asked about, and the config file
/// exactly when the model file was found.
pub open spec fn answers_for(
    paths: (Seq<char>, Seq<char>),
    model: PathAnswer,
    config: Option<PathAnswer>,
) -> bool {
    &&& model.asked() == paths.0
    &&& config matches Some(c) ==> c.asked() == paths.1
    &&& model.found() <==> config is Some
}

/// Whether the config file was found; taken as found where it was not asked
/// about.
pub open spec fn config_found(config: Option<PathAnswer>) -> bool {
    match config {
        Some(c) => c.found(),
        None => true,
    }
}

/// Asks whether something exists at `path` (`std::path::Path::exists`).
/// The answer depends on what is on disk, so only the path it speaks of is
/// stated.
#[verifier::external_body]
pub(crate) fn path_exists(path: &str) -> (r: PathAnswer)
    ensures
        r.asked() == path@,
{
    PathAnswer { path: path.to_owned(), exists: std::path::Path::new(path).exists() }
}

} // verus!
