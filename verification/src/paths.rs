//! Finding files: sound files under alternate extensions, and the chart
//! that stands for its folder.

use crate::errors::AudioError;
use vstd::prelude::*;

verus! {

/// What `std::path::Path::with_extension` makes of a path and an extension.
pub uninterp spec fn path_with_extension(path: Seq<char>, extension: Seq<char>) -> Seq<char>;

/// The extensions under which a sound is looked for.
pub open spec fn sound_extension(extension: Seq<char>) -> bool {
    extension == "wav"@ || extension == "ogg"@ || extension == "mp3"@
}

/// `std::path::Path::with_extension`: the path with its extension replaced,
/// as text. It is called with extensions that hold no path separator only.
#[verifier::external_body]
fn with_extension(path: &String, extension: &str) -> (r: String)
    requires
        sound_extension(extension@),
    ensures
        r@ == path_with_extension(path@, extension@),
{
    std::path::Path::new(path).with_extension(extension).to_string_lossy().into_owned()
}

/// `std::path::Path::exists`: whether a file is there now. Nothing is
/// claimed of the answer.
#[verifier::external_body]
pub(crate) fn file_exists(path: &String) -> (r: bool)
{
    std::path::Path::new(path).exists()
}

/// What `std::path::Path::join` makes of a directory and a path.
pub uninterp spec fn path_joined(base: Seq<char>, path: Seq<char>) -> Seq<char>;

/// `std::path::Path::join`: `path` as seen from the directory `base`, as text.
#[verifier::external_body]
pub(crate) fn join(base: &String, path: &String) -> (r: String)
    ensures
        r@ == path_joined(base@, path@),
{
    std::path::Path::new(base).join(path).to_string_lossy().into_owned()
}

/// The paths under which a sound may be found: the path itself, then the
/// same with the extensions `wav`, `ogg` and `mp3`.
pub open spec fn audio_candidates(path: Seq<char>) -> Seq<Seq<char>> {
    seq![
        path,
        path_with_extension(path, "wav"@),
        path_with_extension(path, "ogg"@),
        path_with_extension(path, "mp3"@),
    ]
}

/// The first of `candidates` that is marked present.
pub open spec fn first_present(present: Seq<bool>, i: nat) -> Option<nat>
    decreases present.len() - i,
{
    if i >= present.len() {
        None
    } else if present[i as int] {
        Some(i)
    } else {
        first_present(present, i + 1)
    }
}

/// The candidate paths of a sound, in the order in which they are tried.
pub fn candidates_of(path: &String) -> (r: Vec<String>)
    ensures
        r@.len() == 4,
        forall|i: int| 0 <= i < 4 ==> (#[trigger] r@[i])@ == audio_candidates(path@)[i],
{
    let mut out: Vec<String> = Vec::new();
    out.push(path.clone());
    out.push(with_extension(path, "wav"));
    out.push(with_extension(path, "ogg"));
    out.push(with_extension(path, "mp3"));
    out
}

/// Picks the first candidate that is present; `present[i]` says whether
/// candidate `i` is.
pub fn pick_present(present: &Vec<bool>) -> (r: Option<usize>)
    ensures
        match r {
            Some(i) => first_present(present@, 0) == Some(i as nat) && i < present@.len()
                && present@[i as int] && forall|j: int| 0 <= j < i ==> !present@[j],
            None => first_present(present@, 0).is_none() && forall|j: int|
                0 <= j < present@.len() ==> !present@[j],
        },
{
    let n = present.len();
    let mut i: usize = 0;
    while i < n
        invariant
            n == present@.len(),
            i <= n,
            first_present(present@, 0) == first_present(present@, i as nat),
            forall|j: int| 0 <= j < i ==> !present@[j],
        decreases n - i,
    {
        if present[i] {
            return Some(i);
        }
        i += 1;
    }
    None
}

/// Finds a sound file by path, letting the other sound extensions pass:
/// the path as given if a file is there, else the first of `wav`, `ogg`,
/// `mp3` under which one is. Whatever the disk holds, a path that is
/// returned is one of the four candidates.
pub fn get_audio_fuzzy(path: &String) -> (r: Option<String>)
    ensures
        r matches Some(found) ==> exists|i: int|
            0 <= i < 4 && found@ == #[trigger] audio_candidates(path@)[i],
{
    let candidates = candidates_of(path);
    let mut present: Vec<bool> = Vec::new();
    let mut i: usize = 0;
    while i < 4
        invariant
            i <= 4,
            candidates@.len() == 4,
            present@.len() == i,
        decreases 4 - i,
    {
        present.push(file_exists(&candidates[i]));
        i += 1;
    }
    match pick_present(&present) {
        Some(k) => {
            let found = candidates[k].clone();
            assert(found@ == audio_candidates(path@)[k as int]);
            Some(found)
        },
        None => None,
    }
}

/// Finds a sound file as `get_audio_fuzzy` does, and says so where
/// there is none.
pub fn find_audio(path: &String) -> (r: Result<String, AudioError>)
    ensures
        match r {
            Ok(found) => exists|i: int|
                0 <= i < 4 && found@ == #[trigger] audio_candidates(path@)[i],
            Err(e) => e == AudioError::FileNotFound(),
        },
{
    match get_audio_fuzzy(path) {
        Some(found) => Ok(found),
        None => Err(AudioError::FileNotFound()),
    }
}

} // verus!
