//! Splitting a combined shader file into its vertex, fragment and optional
//! geometry stages, each framed by `#begin <stage>` and `#end <stage>`.
use vstd::prelude::*;
use vstd::string::StringSliceAdditionalSpecFns;

verus! {

pub const VERTEX_BEGIN: &'static str = "#begin vertex";
pub const VERTEX_END: &'static str = "#end vertex";
pub const FRAGMENT_BEGIN: &'static str = "#begin fragment";
pub const FRAGMENT_END: &'static str = "#end fragment";
pub const GEOMETRY_BEGIN: &'static str = "#begin geometry";
pub const GEOMETRY_END: &'static str = "#end geometry";

/// The bytes `[start, end)` of a text.
#[derive(Debug, Clone, Copy, PartialEq, Eq, Structural)]
pub struct ByteRange {
    pub start: usize,
    pub end: usize,
}

/// Byte ranges of each stage's source.
#[derive(Debug, Clone, Copy, PartialEq, Eq, Structural)]
pub struct ShaderSections {
    pub vertex: ByteRange,
    pub fragment: ByteRange,
    pub geometry: Option<ByteRange>,
}

/// Why a combined shader file cannot be split.
#[derive(Debug, Clone, Copy, PartialEq, Eq, Structural)]
pub enum SectionError {
    NoVertexBegin,
    NoVertexEnd,
    NoFragmentBegin,
    NoFragmentEnd,
    NoGeometryBegin,
    NoGeometryEnd,
    /// A stage's end marker comes before the end of its begin marker.
    EndBeforeBegin,
}

/// `pat` occurs in `s` at byte `i`.
pub open spec fn occurs_at(s: Seq<u8>, pat: Seq<u8>, i: int) -> bool {
    0 <= i && i + pat.len() <= s.len() && s.subrange(i, i + pat.len()) == pat
}

/// The first occurrence of `pat` in `s` at or after `from`.
pub open spec fn find_from(s: Seq<u8>, pat: Seq<u8>, from: int) -> Option<int>
    decreases s.len() + 1 - from,
{
    if from < 0 || from + pat.len() > s.len() {
        None
    } else if occurs_at(s, pat, from) {
        Some(from)
    } else {
        find_from(s, pat, from + 1)
    }
}

/// The range between the end of a begin marker at `begin` and an end
/// marker at `end`.
pub open spec fn stage_range(begin: int, marker_len: int, end: int) -> Result<ByteRange, SectionError> {
    if begin + marker_len > end {
        Err(SectionError::EndBeforeBegin)
    } else {
        Ok(ByteRange { start: (begin + marker_len) as usize, end: end as usize })
    }
}

/// How a combined shader file splits: the first occurrence of each marker
/// frames its stage; the vertex and fragment stages must be there, and the
/// geometry stage has both its markers or neither.
pub open spec fn sections_of(s: Seq<u8>) -> Result<ShaderSections, SectionError> {
    let vb = find_from(s, VERTEX_BEGIN.spec_bytes(), 0);
    let ve = find_from(s, VERTEX_END.spec_bytes(), 0);
    let fb = find_from(s, FRAGMENT_BEGIN.spec_bytes(), 0);
    let fe = find_from(s, FRAGMENT_END.spec_bytes(), 0);
    let gb = find_from(s, GEOMETRY_BEGIN.spec_bytes(), 0);
    let ge = find_from(s, GEOMETRY_END.spec_bytes(), 0);
    if vb is None {
        Err(SectionError::NoVertexBegin)
    } else if ve is None {
        Err(SectionError::NoVertexEnd)
    } else if fb is None {
        Err(SectionError::NoFragmentBegin)
    } else if fe is None {
        Err(SectionError::NoFragmentEnd)
    } else {
        let v = stage_range(vb->0, VERTEX_BEGIN.spec_bytes().len() as int, ve->0);
        let f = stage_range(fb->0, FRAGMENT_BEGIN.spec_bytes().len() as int, fe->0);
        if v is Err {
            Err(v->Err_0)
        } else if f is Err {
            Err(f->Err_0)
        } else if gb is None && ge is None {
            Ok(ShaderSections { vertex: v->Ok_0, fragment: f->Ok_0, geometry: None })
        } else if gb is None {
            Err(SectionError::NoGeometryBegin)
        } else if ge is None {
            Err(SectionError::NoGeometryEnd)
        } else {
            let g = stage_range(gb->0, GEOMETRY_BEGIN.spec_bytes().len() as int, ge->0);
            if g is Err {
                Err(g->Err_0)
            } else {
                Ok(ShaderSections { vertex: v->Ok_0, fragment: f->Ok_0, geometry: Some(g->Ok_0) })
            }
        }
    }
}

proof fn lemma_find_from_bounds(s: Seq<u8>, pat: Seq<u8>, from: int)
    ensures
        find_from(s, pat, from) matches Some(i) ==> from <= i && i + pat.len() <= s.len()
            && occurs_at(s, pat, i),
    decreases s.len() + 1 - from,
{
    if !(from < 0 || from + pat.len() > s.len()) && !occurs_at(s, pat, from) {
        lemma_find_from_bounds(s, pat, from + 1);
    }
}

fn occurs(s: &[u8], pat: &[u8], i: usize) -> (r: bool)
    requires
        i + pat@.len() <= s@.len(),
    ensures
        r == occurs_at(s@, pat@, i as int),
{
    let n = s.len();
    let mut k: usize = 0;
    while k < pat.len()
        invariant
            n == s@.len(),
            i + pat@.len() <= s@.len(),
            0 <= k <= pat@.len(),
            forall|j: int| 0 <= j < k ==> s@[i + j] == pat@[j],
        decreases pat@.len() - k,
    {
        if s[i + k] != pat[k] {
            assert(s@.subrange(i as int, i + pat@.len())[k as int] != pat@[k as int]);
            return false;
        }
        k = k + 1;
    }
    assert(s@.subrange(i as int, i + pat@.len()) =~= pat@);
    true
}

/// The byte position of the first occurrence of `pat` in `s`.
pub fn find(s: &[u8], pat: &[u8]) -> (r: Option<usize>)
    ensures
        match r {
            Some(i) => find_from(s@, pat@, 0) == Some(i as int) && i + pat@.len() <= s@.len(),
            None => find_from(s@, pat@, 0) is None,
        },
{
    proof {
        lemma_find_from_bounds(s@, pat@, 0);
    }
    if pat.len() > s.len() {
        return None;
    }
    let last = s.len() - pat.len();
    let mut i: usize = 0;
    loop
        invariant
            pat@.len() <= s@.len(),
            last == s@.len() - pat@.len(),
            0 <= i <= last,
            find_from(s@, pat@, 0) == find_from(s@, pat@, i as int),
        decreases last - i,
    {
        if occurs(s, pat, i) {
            return Some(i);
        }
        if i == last {
            assert(find_from(s@, pat@, i + 1) is None);
            return None;
        }
        i = i + 1;
    }
}

fn stage(begin: usize, marker_len: usize, end: usize) -> (r: Result<ByteRange, SectionError>)
    ensures
        r == stage_range(begin as int, marker_len as int, end as int),
{
    if begin as u128 + marker_len as u128 > end as u128 {
        Err(SectionError::EndBeforeBegin)
    } else {
        Ok(ByteRange { start: begin + marker_len, end })
    }
}

/// Finds the byte ranges of the stages of a combined shader file.
pub fn split_sections(src: &str) -> (r: Result<ShaderSections, SectionError>)
    ensures
        r == sections_of(src.spec_bytes()),
{
    let s = src.as_bytes();
    let vb = find(s, VERTEX_BEGIN.as_bytes());
    let ve = find(s, VERTEX_END.as_bytes());
    let fb = find(s, FRAGMENT_BEGIN.as_bytes());
    let fe = find(s, FRAGMENT_END.as_bytes());
    let gb = find(s, GEOMETRY_BEGIN.as_bytes());
    let ge = find(s, GEOMETRY_END.as_bytes());
    let (vb, ve, fb, fe) = match (vb, ve, fb, fe) {
        (None, _, _, _) => return Err(SectionError::NoVertexBegin),
        (_, None, _, _) => return Err(SectionError::NoVertexEnd),
        (_, _, None, _) => return Err(SectionError::NoFragmentBegin),
        (_, _, _, None) => return Err(SectionError::NoFragmentEnd),
        (Some(a), Some(b), Some(c), Some(d)) => (a, b, c, d),
    };
    let vertex = match stage(vb, VERTEX_BEGIN.as_bytes().len(), ve) {
        Ok(v) => v,
        Err(e) => return Err(e),
    };
    let fragment = match stage(fb, FRAGMENT_BEGIN.as_bytes().len(), fe) {
        Ok(f) => f,
        Err(e) => return Err(e),
    };
    match (gb, ge) {
        (None, None) => Ok(ShaderSections { vertex, fragment, geometry: None }),
        (None, Some(_)) => Err(SectionError::NoGeometryBegin),
        (Some(_), None) => Err(SectionError::NoGeometryEnd),
        (Some(b), Some(e)) => match stage(b, GEOMETRY_BEGIN.as_bytes().len(), e) {
            Ok(g) => Ok(ShaderSections { vertex, fragment, geometry: Some(g) }),
            Err(err) => Err(err),
        },
    }
}

} // verus!
