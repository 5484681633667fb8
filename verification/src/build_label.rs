//! The label by which a build of the application is told apart.
use crate::text;
use vstd::prelude::*;
use vstd::string::*;
use vstd::utf8::*;

verus! {

/// The label of a build: the commit that it was made from, marked where the work tree had changes. The
/// outputs are those of Git, where it could be asked.
pub open spec fn label(revision: Option<Seq<u8>>, status: Option<Seq<u8>>) -> Seq<char> {
    let sha = if revision is Some && valid_utf8(revision->0) {
        text::trimmed(decode_utf8(revision->0))
    } else {
        "unknown"@
    };
    if status is Some && status->0.len() > 0 {
        sha + "-dirty"@
    } else {
        sha
    }
}

/// Bytes, where there are any.
pub open spec fn opt_bytes(bytes: Option<Vec<u8>>) -> Option<Seq<u8>> {
    match bytes {
        Some(b) => Some(b@),
        None => None,
    }
}

/// The label of a build, from what Git says of the commit and of the work tree.
pub fn build_label(revision: Option<Vec<u8>>, status: Option<Vec<u8>>) -> (r: String)
    ensures
        r@ == label(opt_bytes(revision), opt_bytes(status)),
{
    let mut sha: String = match revision {
        Some(bytes) => match String::from_utf8(bytes) {
            Ok(value) => {
                proof {
                    encode_utf8_decode_utf8(value@);
                }
                text::trim(value.as_str())
            },
            Err(_) => "unknown".to_owned(),
        },
        None => "unknown".to_owned(),
    };
    let dirty: bool = match status {
        Some(bytes) => bytes.len() > 0,
        None => false,
    };
    if dirty {
        sha.append("-dirty");
    }
    sha
}

/// The label of a build starts with what Git printed for its commit, without the white space around it, and ends with
/// `-dirty` exactly when Git listed a change. Where Git printed nothing for the commit, nothing stands for it; where it
/// could not be asked, it is unknown.
pub proof fn law_a_build_is_labelled_by_its_commit(
    revision: Option<Vec<u8>>,
    status: Option<Vec<u8>>,
    r: String,
    lead: Seq<char>,
    sha: Seq<char>,
    tail: Seq<char>,
)
    requires
        call_ensures(build_label, (revision, status), r),
        text::is_blank(lead),
        text::is_tight(sha),
        text::is_blank(tail),
    ensures
        ({
            let changed = status is Some && status->0@.len() > 0;
            &&& revision is Some && revision->0@ == encode_utf8(lead + sha + tail) ==> r@ == if changed {
                sha + "-dirty"@
            } else {
                sha
            }
            &&& revision is Some && revision->0@ == encode_utf8(lead) ==> r@ == if changed {
                "-dirty"@
            } else {
                Seq::empty()
            }
            &&& revision is None || !valid_utf8(revision->0@) ==> r@ == if changed {
                "unknown"@ + "-dirty"@
            } else {
                "unknown"@
            }
        }),
{
    encode_utf8_valid_utf8(lead);
    encode_utf8_decode_utf8(lead);
    text::lemma_trimmed_of_blank(lead);
    assert(Seq::<char>::empty() + "-dirty"@ =~= "-dirty"@);
    encode_utf8_valid_utf8(lead + sha + tail);
    encode_utf8_decode_utf8(lead + sha + tail);
    text::lemma_trimmed_of_padded(lead, sha, tail);
}

} // verus!
