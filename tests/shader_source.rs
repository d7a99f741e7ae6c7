use scenegraph::shader_source::{find, split_sections, ByteRange, SectionError};

const SRC: &str = "#begin vertex\nvoid main() {}\n#end vertex\n#begin fragment\nout vec4 c;\n#end fragment\n";

#[test]
fn find_first_occurrence() {
    assert_eq!(find(b"abcabc", b"bc"), Some(1));
    assert_eq!(find(b"abcabc", b"cb"), None);
    assert_eq!(find(b"ab", b"abc"), None);
    assert_eq!(find(b"ab", b""), Some(0));
}

#[test]
fn splits_vertex_and_fragment() {
    let s = split_sections(SRC).unwrap();
    assert_eq!(&SRC[s.vertex.start..s.vertex.end], "\nvoid main() {}\n");
    assert_eq!(&SRC[s.fragment.start..s.fragment.end], "\nout vec4 c;\n");
    assert_eq!(s.geometry, None);
}

#[test]
fn splits_geometry() {
    let src = format!("{}#begin geometry\ngeo\n#end geometry", SRC);
    let s = split_sections(&src).unwrap();
    let g: ByteRange = s.geometry.unwrap();
    assert_eq!(&src[g.start..g.end], "\ngeo\n");
}

#[test]
fn missing_markers() {
    assert_eq!(split_sections(""), Err(SectionError::NoVertexBegin));
    assert_eq!(split_sections("#begin vertex"), Err(SectionError::NoVertexEnd));
    assert_eq!(
        split_sections("#begin vertex #end vertex"),
        Err(SectionError::NoFragmentBegin)
    );
    assert_eq!(
        split_sections("#begin vertex #end vertex #begin fragment"),
        Err(SectionError::NoFragmentEnd)
    );
    let only_end = format!("{}#end geometry", SRC);
    assert_eq!(split_sections(&only_end), Err(SectionError::NoGeometryBegin));
    let only_begin = format!("{}#begin geometry", SRC);
    assert_eq!(split_sections(&only_begin), Err(SectionError::NoGeometryEnd));
}

#[test]
fn end_before_begin() {
    assert_eq!(
        split_sections("#end vertex #begin vertex #begin fragment #end fragment"),
        Err(SectionError::EndBeforeBegin)
    );
}
