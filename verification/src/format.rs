//! Which of the input encodings a file holds, by its name.

use vstd::prelude::*;

verus! {

/// An input encoding.
#[derive(Clone, Copy, Debug, PartialEq, Eq, Structural)]
pub enum SceneFormat {
    /// Header and body, one raw record a splat.
    Ply,
    /// The packed buffer itself.
    Splat,
    /// The compressed format of the decode service.
    Spz,
}

/// `.ply`
pub open spec fn ply_suffix() -> Seq<u8> {
    seq![46u8, 112u8, 108u8, 121u8]
}

/// `.splat`
pub open spec fn splat_suffix() -> Seq<u8> {
    seq![46u8, 115u8, 112u8, 108u8, 97u8, 116u8]
}

/// `.spz`
pub open spec fn spz_suffix() -> Seq<u8> {
    seq![46u8, 115u8, 112u8, 122u8]
}

/// `pattern` stands in `text` at `at`.
pub open spec fn occurs_at(text: Seq<u8>, pattern: Seq<u8>, at: int) -> bool {
    0 <= at && at + pattern.len() <= text.len() && text.subrange(at, at + pattern.len())
        == pattern
}

/// `pattern` stands somewhere in `text`.
pub open spec fn occurs_in(text: Seq<u8>, pattern: Seq<u8>) -> bool {
    exists|at: int| occurs_at(text, pattern, at)
}

/// The encoding that a file name stands for: the first of `.ply`, `.splat`
/// and `.spz` that occurs anywhere in it.
pub open spec fn format_of(name: Seq<u8>) -> Option<SceneFormat> {
    if occurs_in(name, ply_suffix()) {
        Some(SceneFormat::Ply)
    } else if occurs_in(name, splat_suffix()) {
        Some(SceneFormat::Splat)
    } else if occurs_in(name, spz_suffix()) {
        Some(SceneFormat::Spz)
    } else {
        None
    }
}

fn stands_at(text: &[u8], pattern: &[u8], at: usize) -> (stands: bool)
    requires
        at + pattern.len() <= text.len(),
    ensures
        stands == occurs_at(text@, pattern@, at as int),
{
    let ghost window = text@.subrange(at as int, at + pattern.len());
    let mut k: usize = 0;
    while k < pattern.len()
        invariant
            k <= pattern.len(),
            at + pattern.len() <= text.len(),
            window == text@.subrange(at as int, at + pattern.len()),
            forall|j: int| 0 <= j < k ==> window[j] == pattern@[j],
        decreases pattern.len() - k,
    {
        if text[at + k] != pattern[k] {
            assert(window[k as int] != pattern@[k as int]);
            return false;
        }
        k += 1;
    }
    assert(window =~= pattern@);
    true
}

fn contains(text: &[u8], pattern: &[u8]) -> (found: bool)
    ensures
        found == occurs_in(text@, pattern@),
{
    if pattern.len() > text.len() {
        return false;
    }
    if pattern.len() == 0 {
        assert(occurs_at(text@, pattern@, 0)) by {
            assert(text@.subrange(0, 0) =~= pattern@);
        }
        return true;
    }
    let last = text.len() - pattern.len();
    let mut at: usize = 0;
    while at <= last
        invariant
            at <= last + 1,
            last == text.len() - pattern.len(),
            0 < pattern.len() <= text.len(),
            forall|i: int| 0 <= i < at ==> !occurs_at(text@, pattern@, i),
        decreases last + 1 - at,
    {
        if stands_at(text, pattern, at) {
            return true;
        }
        at += 1;
    }
    false
}

/// Tells the encoding of a file from its name.
pub fn scene_format(name: &[u8]) -> (format: Option<SceneFormat>)
    ensures
        format == format_of(name@),
{
    let ply: [u8; 4] = [46, 112, 108, 121];
    let splat: [u8; 6] = [46, 115, 112, 108, 97, 116];
    let spz: [u8; 4] = [46, 115, 112, 122];
    assert(ply@ =~= ply_suffix());
    assert(splat@ =~= splat_suffix());
    assert(spz@ =~= spz_suffix());
    if contains(name, ply.as_slice()) {
        Some(SceneFormat::Ply)
    } else if contains(name, splat.as_slice()) {
        Some(SceneFormat::Splat)
    } else if contains(name, spz.as_slice()) {
        Some(SceneFormat::Spz)
    } else {
        None
    }
}

} // verus!
