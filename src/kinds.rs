//! File kinds for the reporting layer: which files could shrink, which are
//! likely disposable, and a running tally of both. Sizes are in bytes;
//! estimated savings are whole percentages of a file's size.

use vstd::prelude::*;
use crate::store::{extension, extension_of};
use crate::text::same_text;

verus! {

/// What a file's extension says of it.
#[derive(Clone, Copy, Debug, PartialEq, Eq, Structural)]
pub enum FileKind {
    /// Media or documents that recompression could shrink by about the given
    /// percentages of their size, without and with loss.
    Compressible { lossless_percent: u64, lossy_percent: u64 },
    /// Temporary, partial or build files that could likely be deleted.
    Useless,
    /// Anything else.
    Other,
}

/// The kind that an extension gives.
pub open spec fn kind_of_ext(e: Seq<char>) -> FileKind {
    if e == "mp3"@ {
        FileKind::Compressible { lossless_percent: 10, lossy_percent: 50 }
    } else if e == "jpeg"@ || e == "jpg"@ || e == "webp"@ || e == "png"@ || e == "gif"@ || e == "svg"@
        || e == "mp4"@ || e == "av1"@ || e == "webm"@ || e == "pdf"@ || e == "docx"@ || e == "xlsx"@
        || e == "pptx"@ {
        FileKind::Compressible { lossless_percent: 40, lossy_percent: 70 }
    } else if e == "tmp"@ || e == "temp"@ || e == "deb"@ || e == "old"@ || e == "~"@ || e == "log"@
        || e == "dmp"@ || e == "crdownload"@ || e == "part"@ || e == "download"@ || e == "opdownload"@
        || e == "pyc"@ || e == "pyo"@ || e == "o"@ || e == "so"@ {
        FileKind::Useless
    } else {
        FileKind::Other
    }
}

/// The kind of a path: that of its extension, or `Other` without one.
pub open spec fn kind_of(p: Seq<char>) -> FileKind {
    match extension(p) {
        Some(e) => kind_of_ext(e),
        None => FileKind::Other,
    }
}

fn kind_of_extension(e: &str) -> (r: FileKind)
    ensures
        r == kind_of_ext(e@),
{
    if same_text(e, "mp3") {
        FileKind::Compressible { lossless_percent: 10, lossy_percent: 50 }
    } else if same_text(e, "jpeg") || same_text(e, "jpg") || same_text(e, "webp") || same_text(e, "png")
        || same_text(e, "gif") || same_text(e, "svg") || same_text(e, "mp4") || same_text(e, "av1")
        || same_text(e, "webm") || same_text(e, "pdf") || same_text(e, "docx") || same_text(e, "xlsx")
        || same_text(e, "pptx") {
        FileKind::Compressible { lossless_percent: 40, lossy_percent: 70 }
    } else if same_text(e, "tmp") || same_text(e, "temp") || same_text(e, "deb") || same_text(e, "old")
        || same_text(e, "~") || same_text(e, "log") || same_text(e, "dmp") || same_text(e, "crdownload")
        || same_text(e, "part") || same_text(e, "download") || same_text(e, "opdownload") || same_text(
        e,
        "pyc",
    ) || same_text(e, "pyo") || same_text(e, "o") || same_text(e, "so") {
        FileKind::Useless
    } else {
        FileKind::Other
    }
}

/// The kind of a file, from its path's extension.
pub fn classify(path: &str) -> (r: FileKind)
    ensures
        r == kind_of(path@),
{
    match extension_of(path) {
        Some(e) => kind_of_extension(e.as_str()),
        None => FileKind::Other,
    }
}

/// `x` held to the `u64` range: the largest `u64` when it is above it.
pub open spec fn saturate(x: int) -> u64 {
    if x > u64::MAX {
        u64::MAX
    } else if x < 0 {
        0
    } else {
        x as u64
    }
}

/// The whole bytes of `percent` percent of `size` (rounded down).
pub open spec fn share(size: u64, percent: u64) -> int {
    (size as int * percent as int) / 100
}

fn add_saturating(a: u64, b: u128) -> (r: u64)
    requires
        b < 0x1_0000_0000_0000_0000_0000_0000_0000_0000 - 0x1_0000_0000_0000_0000,
    ensures
        r == saturate(a + b),
{
    let x: u128 = a as u128 + b;
    if x > u64::MAX as u128 {
        u64::MAX
    } else {
        x as u64
    }
}

fn add_share(acc: u64, size: u64, percent: u64) -> (r: u64)
    ensures
        r == saturate(acc + share(size, percent)),
{
    let s = size as u128;
    let p = percent as u128;
    assert(s * p <= 0xffff_ffff_ffff_ffff * 0xffff_ffff_ffff_ffff) by (nonlinear_arith)
        requires
            s <= 0xffff_ffff_ffff_ffff,
            p <= 0xffff_ffff_ffff_ffff,
    ;
    let part = s * p / 100;
    add_saturating(acc, part)
}

/// Counts and byte estimates per kind, gathered over a walk.
#[derive(Clone, Copy, Debug, PartialEq, Eq, Structural)]
pub struct Tally {
    pub compressible_files: u64,
    pub lossless_bytes: u64,
    pub lossy_bytes: u64,
    pub useless_files: u64,
    pub useless_bytes: u64,
}

/// The tally after one more file of kind `kind`, whose size is `size` when it
/// could be read. Each count and sum stops at the largest `u64`.
pub open spec fn recorded(t: Tally, kind: FileKind, size: Option<u64>) -> Tally {
    match kind {
        FileKind::Compressible { lossless_percent, lossy_percent } => Tally {
            compressible_files: saturate(t.compressible_files + 1),
            lossless_bytes: match size {
                Some(s) => saturate(t.lossless_bytes + share(s, lossless_percent)),
                None => t.lossless_bytes,
            },
            lossy_bytes: match size {
                Some(s) => saturate(t.lossy_bytes + share(s, lossy_percent)),
                None => t.lossy_bytes,
            },
            ..t
        },
        FileKind::Useless => Tally {
            useless_files: saturate(t.useless_files + 1),
            useless_bytes: match size {
                Some(s) => saturate(t.useless_bytes + s),
                None => t.useless_bytes,
            },
            ..t
        },
        FileKind::Other => t,
    }
}

impl Tally {
    /// A tally with nothing counted.
    pub fn new() -> (r: Tally)
        ensures
            r == (Tally {
                compressible_files: 0,
                lossless_bytes: 0,
                lossy_bytes: 0,
                useless_files: 0,
                useless_bytes: 0,
            }),
    {
        Tally {
            compressible_files: 0,
            lossless_bytes: 0,
            lossy_bytes: 0,
            useless_files: 0,
            useless_bytes: 0,
        }
    }

    /// Counts one file of kind `kind`; its size, when known, adds to the
    /// estimates of its kind.
    pub fn record(&mut self, kind: FileKind, size: Option<u64>)
        ensures
            *final(self) == recorded(*old(self), kind, size),
    {
        match kind {
            FileKind::Compressible { lossless_percent, lossy_percent } => {
                self.compressible_files = add_saturating(self.compressible_files, 1);
                match size {
                    Some(s) => {
                        self.lossless_bytes = add_share(self.lossless_bytes, s, lossless_percent);
                        self.lossy_bytes = add_share(self.lossy_bytes, s, lossy_percent);
                    },
                    None => {},
                }
            },
            FileKind::Useless => {
                self.useless_files = add_saturating(self.useless_files, 1);
                match size {
                    Some(s) => {
                        self.useless_bytes = add_saturating(self.useless_bytes, s as u128);
                    },
                    None => {},
                }
            },
            FileKind::Other => {},
        }
    }
}

/// The sum of a sequence of sizes.
pub open spec fn sum_sizes(sizes: Seq<u64>) -> int
    decreases sizes.len(),
{
    if sizes.len() == 0 {
        0
    } else {
        sum_sizes(sizes.drop_last()) + sizes.last()
    }
}

proof fn lemma_sum_sizes_nonneg(sizes: Seq<u64>)
    ensures
        sum_sizes(sizes) >= 0,
    decreases sizes.len(),
{
    if sizes.len() > 0 {
        lemma_sum_sizes_nonneg(sizes.drop_last());
    }
}

/// The total of the sizes of a directory's files, held to the `u64` range.
pub fn total_size(sizes: &Vec<u64>) -> (r: u64)
    ensures
        r == saturate(sum_sizes(sizes@)),
{
    let mut total: u64 = 0;
    let mut i: usize = 0;
    while i < sizes.len()
        invariant
            i <= sizes@.len(),
            total == saturate(sum_sizes(sizes@.take(i as int))),
        decreases sizes@.len() - i,
    {
        proof {
            assert(sizes@.take(i + 1).drop_last() =~= sizes@.take(i as int));
            lemma_sum_sizes_nonneg(sizes@.take(i as int));
        }
        total = add_saturating(total, sizes[i] as u128);
        i = i + 1;
    }
    assert(sizes@.take(i as int) =~= sizes@);
    total
}

} // verus!
