//! Image records: which listed images become a snapshot, and under what
//! tag.

use vstd::prelude::*;
use vstd::string::*;

verus! {

/// Daemon-independent image record: content id, first repo tag (or
/// `<untagged>`), and the number of filesystem layers.
#[derive(Debug, Clone, PartialEq, Eq)]
pub struct ImageSnapshot {
    pub id: String,
    pub repo_tag: String,
    pub layer_count: usize,
}

/// The tag an image is shown under: its first repo tag, else `<untagged>`.
pub open spec fn image_tag(repo_tags: Seq<String>) -> Seq<char> {
    if repo_tags.len() > 0 {
        repo_tags[0]@
    } else {
        "<untagged>"@
    }
}

/// The snapshot of one listed image, given what its inspect gave
/// (`inspected_layers` is `None` when the inspect failed): images with an
/// empty id, or whose inspect failed, are skipped.
pub fn image_snapshot(id: &str, repo_tags: &Vec<String>, inspected_layers: Option<usize>) -> (r: Option<
    ImageSnapshot,
>)
    ensures
        r is Some <==> (id@.len() > 0 && inspected_layers is Some),
        r matches Some(s) ==> s.id@ == id@ && s.repo_tag@ == image_tag(repo_tags@)
            && Some(s.layer_count) == inspected_layers,
{
    if id.unicode_len() == 0 {
        return None;
    }
    let repo_tag = if repo_tags.len() > 0 {
        String::from_str(repo_tags[0].as_str())
    } else {
        String::from_str("<untagged>")
    };
    match inspected_layers {
        None => None,
        Some(layer_count) => Some(ImageSnapshot { id: String::from_str(id), repo_tag, layer_count }),
    }
}

} // verus!
