//! Choosing the charts of a songs folder: one for each directory.

use crate::errors::RendererError;
use vstd::prelude::*;

verus! {

/// One entry found while walking a songs folder.
#[derive(Clone, Debug)]
pub struct FoundFile {
    /// The directory that holds the entry.
    pub parent: String,
    /// The extension of its name, if it has one.
    pub extension: Option<String>,
    /// Whether it is a file.
    pub is_file: bool,
}

/// The two families of chart formats.
#[derive(Clone, Copy, Debug, PartialEq, Eq, Structural)]
pub enum ChartFormat {
    /// Text: `bms`, `bme`, `bml`, `pms`.
    Bms,
    /// JSON: `bmson`.
    Bmson,
}

/// The extensions of chart files.
pub open spec fn chart_extension(extension: Seq<char>) -> bool {
    ||| extension == "bms"@
    ||| extension == "bme"@
    ||| extension == "bml"@
    ||| extension == "pms"@
    ||| extension == "bmson"@
}

/// The entry is a chart file.
pub open spec fn eligible(file: FoundFile) -> bool {
    file.is_file && (file.extension matches Some(e) && chart_extension(e@))
}

/// Entry `i` stands for its directory: it is the first chart file there.
pub open spec fn chosen(files: Seq<FoundFile>, i: int) -> bool {
    &&& 0 <= i < files.len()
    &&& eligible(files[i])
    &&& forall|j: int|
        0 <= j < i ==> !(eligible(#[trigger] files[j]) && files[j].parent@ == files[i].parent@)
}

/// Whether `extension` is that of a chart file.
pub fn is_chart_extension(extension: &String) -> (r: bool)
    ensures
        r == chart_extension(extension@),
{
    *extension == "bms".to_owned() || *extension == "bme".to_owned() || *extension
        == "bml".to_owned() || *extension == "pms".to_owned() || *extension == "bmson".to_owned()
}

/// Whether the entry is a chart file.
pub fn is_eligible(file: &FoundFile) -> (r: bool)
    ensures
        r == eligible(*file),
{
    if !file.is_file {
        return false;
    }
    match &file.extension {
        Some(e) => is_chart_extension(e),
        None => false,
    }
}

/// The format of a chart file by the extension of its name; a name
/// without extension names no chart.
pub fn chart_format(extension: Option<&String>) -> (r: Result<ChartFormat, RendererError>)
    ensures
        extension.is_none() ==> r matches Err(RendererError::BMSPathError()),
        extension matches Some(e) ==> r == Ok::<ChartFormat, RendererError>(
            if e@ == "bmson"@ {
                ChartFormat::Bmson
            } else {
                ChartFormat::Bms
            },
        ),
{
    match extension {
        None => Err(RendererError::BMSPathError()),
        Some(e) => if *e == "bmson".to_owned() {
            Ok(ChartFormat::Bmson)
        } else {
            Ok(ChartFormat::Bms)
        },
    }
}

/// Picks the charts to render among the entries of a walk, in the order
/// of the walk: for each directory the first chart file found in it.
pub fn select_charts(files: &Vec<FoundFile>) -> (r: Vec<usize>)
    ensures
        forall|k: int| 0 <= k < r@.len() ==> chosen(files@, #[trigger] r@[k] as int),
        forall|i: int| chosen(files@, i) ==> r@.contains(i as usize),
        forall|k: int, l: int| 0 <= k < l < r@.len() ==> r@[k] < r@[l],
{
    let n = files.len();
    let mut picked: Vec<usize> = Vec::new();
    let mut i: usize = 0;
    while i < n
        invariant
            i <= n,
            n == files@.len(),
            forall|k: int|
                0 <= k < picked@.len() ==> chosen(files@, #[trigger] picked@[k] as int)
                    && picked@[k] < i,
            forall|j: int| 0 <= j < i && chosen(files@, j) ==> picked@.contains(j as usize),
            forall|k: int, l: int| 0 <= k < l < picked@.len() ==> picked@[k] < picked@[l],
        decreases n - i,
    {
        if is_eligible(&files[i]) {
            let m = picked.len();
            let mut seen = false;
            let mut k: usize = 0;
            while k < m
                invariant
                    k <= m,
                    m == picked@.len(),
                    i < n,
                    n == files@.len(),
                    forall|q: int| 0 <= q < picked@.len() ==> (#[trigger] picked@[q]) < i,
                    seen == exists|q: int|
                        0 <= q < k && files@[(#[trigger] picked@[q]) as int].parent@
                            == files@[i as int].parent@,
                decreases m - k,
            {
                if files[picked[k]].parent == files[i].parent {
                    seen = true;
                }
                k += 1;
            }
            proof {
                if seen {
                    let q = choose|q: int|
                        0 <= q < m && files@[(#[trigger] picked@[q]) as int].parent@
                            == files@[i as int].parent@;
                    assert(chosen(files@, picked@[q] as int));
                    assert(!chosen(files@, i as int));
                } else {
                    assert forall|j: int| 0 <= j < i implies !(eligible(#[trigger] files@[j])
                        && files@[j].parent@ == files@[i as int].parent@) by {
                        if eligible(files@[j]) && files@[j].parent@ == files@[i as int].parent@ {
                            lemma_first_in_directory(files@, j);
                            let f = choose|f: int|
                                0 <= f <= j && chosen(files@, f) && files@[f].parent@
                                    == files@[j].parent@;
                            assert(picked@.contains(f as usize));
                            let q = choose|q: int| 0 <= q < picked@.len() && picked@[q] == f as usize;
                            assert(files@[picked@[q] as int].parent@ == files@[i as int].parent@);
                        }
                    }
                    assert(chosen(files@, i as int));
                }
            }
            if !seen {
                let ghost before = picked@;
                picked.push(i);
                proof {
                    assert forall|j: int| 0 <= j < i + 1 && chosen(files@, j) implies picked@.contains(
                        j as usize,
                    ) by {
                        if j < i {
                            assert(before.contains(j as usize));
                            let q = choose|q: int| 0 <= q < before.len() && before[q] == j as usize;
                            assert(picked@[q] == j as usize);
                        } else {
                            assert(picked@[picked@.len() - 1] == i);
                        }
                    }
                }
            }
        }
        i += 1;
    }
    picked
}

/// Before any chart file lies the first chart file of its directory.
pub proof fn lemma_first_in_directory(files: Seq<FoundFile>, j: int)
    requires
        0 <= j < files.len(),
        eligible(files[j]),
    ensures
        exists|f: int| 0 <= f <= j && chosen(files, f) && files[f].parent@ == files[j].parent@,
    decreases j,
{
    if chosen(files, j) {
    } else {
        let e = choose|e: int|
            0 <= e < j && eligible(#[trigger] files[e]) && files[e].parent@ == files[j].parent@;
        lemma_first_in_directory(files, e);
        let f = choose|f: int|
            0 <= f <= e && chosen(files, f) && files[f].parent@ == files[e].parent@;
        assert(0 <= f <= j && chosen(files, f) && files[f].parent@ == files[j].parent@);
    }
}

} // verus!
