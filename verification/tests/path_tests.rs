use artop::emf_common::segment_sequence::{SegmentSequence, SegmentSequenceBuilder};
use artop::emf_common::uri::Uri;

#[test]
fn parses_plain_path() {
    let u = Uri::parse("foo/bar.xmi");
    assert_eq!(u.path(), "foo/bar.xmi");
    assert!(u.is_relative());
}

#[test]
fn parses_file_with_authority() {
    let u = Uri::parse("file:///tmp/a.xmi");
    assert!(u.is_file());
    assert_eq!(u.scheme(), "file");
    assert!(u.has_authority());
    assert_eq!(u.path(), "/tmp/a.xmi");
}

#[test]
fn roundtrip_uri() {
    let u = Uri::parse("platform:/resource/m/app.arxml#/frag");
    assert_eq!(u.to_string(), "platform:/resource/m/app.arxml#/frag");
    assert_eq!(u.fragment(), "/frag");
}

#[test]
fn file_uri_roundtrip() {
    let u = Uri::create_file_uri("/tmp/x.arxml");
    assert!(u.has_authority());
    assert_eq!(u.to_string(), "file:///tmp/x.arxml");
}

#[test]
fn resolve_relative() {
    let base = Uri::parse("file:///a/b/c.y.xmi");
    let rel = Uri::parse("../d.y.xmi");
    let r = rel.resolve(&base);
    assert_eq!(r.path(), "/a/b/d.y.xmi");
}

#[test]
fn trim_segments_drops_tail() {
    let u = Uri::parse("/a/b/c.xmi");
    let t = u.trim_segments(1);
    assert_eq!(t.path(), "/a/b");
}

#[test]
fn default_uri_empty() {
    let u = Uri::default();
    assert_eq!(u.to_string(), "");
    assert!(u.is_empty());
    assert!(!u.is_file());
    assert!(!u.is_platform());
}

#[test]
fn uri_create_file_uri() {
    let u = Uri::create_file_uri("/a/b/c");
    assert!(u.is_file());
    assert_eq!(u.to_file_path(), "/a/b/c");
}

#[test]
fn uri_create_uri_parses_file() {
    let u = Uri::parse("file:///a/b/c");
    assert_eq!(u.scheme(), "file");
    assert!(u.is_file());
    assert_eq!(u.to_file_path(), "/a/b/c");
}

#[test]
fn uri_create_platform_uri() {
    let u = Uri::create_platform_uri("/resource/foo");
    assert!(u.is_platform());
    assert_eq!(u.scheme(), "platform");
    assert_eq!(u.path(), "/resource/foo");
}

#[test]
fn uri_parse_archive_entry() {
    let u = Uri::parse("file://host/path");
    assert!(!u.is_archive());
}

#[test]
fn uri_append_fragment() {
    let mut u = Uri::parse("file:///a/b/c");
    u = u.append_fragment("seg1");
    assert_eq!(u.fragment(), "seg1");
}

#[test]
fn uri_append_segment() {
    let u = Uri::parse("file:///a/b");
    let u2 = u.append_segment("c");
    assert_eq!(u2.path(), "/a/b/c");
    let u3 = u2.append_segment("d");
    assert_eq!(u3.path(), "/a/b/c/d");
}

#[test]
fn uri_trim_fragment() {
    let u = Uri::parse("file:///a/b#frag");
    assert_eq!(u.fragment(), "frag");
    let u2 = u.trim_fragment();
    assert_eq!(u2.fragment(), "");
    assert_eq!(u2.path(), "/a/b");
}

#[test]
fn uri_trim_segments() {
    let u = Uri::parse("file:///a/b/c/d");
    let u1 = u.trim_segments(1);
    assert_eq!(u1.path(), "/a/b/c");
    let u2 = u.trim_segments(3);
    assert_eq!(u2.path(), "/a");
    let u3 = u2.trim_segments(10);
    assert_eq!(u3.path(), "");
}

#[test]
fn uri_empty_uri() {
    let u = Uri::new();
    assert!(u.is_empty());
}

#[test]
fn uri_query_string() {
    let u = Uri::parse("file:///a/b?key=value");
    assert_eq!(u.query(), "key=value");
    assert_eq!(u.path(), "/a/b");
}

#[test]
fn uri_plain_path_not_relative() {
    let u = Uri::parse("/some/absolute/path");
    assert!(!u.is_relative());
    assert_eq!(u.path(), "/some/absolute/path");
}

#[test]
fn splits_on_delimiter() {
    let s = SegmentSequence::create("/", "a/b/c");
    assert_eq!(s.segment_count(), 3);
    assert_eq!(s.last_segment(), Some("c"));
    assert_eq!(s.to_string(), "a/b/c");
}

#[test]
fn builder_joins() {
    let s = SegmentSequenceBuilder::new("/").append("x").append("y").build();
    assert_eq!(s.to_string(), "x/y");
}

#[test]
fn segment_sequence_empty() {
    let seq = SegmentSequence::empty("/");
    assert_eq!(seq.segment_count(), 0);
    assert_eq!(seq.to_string(), "");
    assert_eq!(seq.length(), 0);
    assert_eq!(seq.delimiter(), "/");
    assert_eq!(seq.last_segment(), None);
    assert_eq!(seq.first_segment(), None);
}

#[test]
fn segment_sequence_to_string_simple() {
    let seq = SegmentSequence::create("/", "a/b/c");
    assert_eq!(seq.segment_count(), 3);
    assert_eq!(seq.to_string(), "a/b/c");
    assert_eq!(seq.length(), 5);
}

#[test]
fn segment_sequence_segment_access() {
    let seq = SegmentSequence::create("/", "a/b/c");
    assert_eq!(seq.segment_count(), 3);
    assert_eq!(seq.segment(0), Some("a"));
    assert_eq!(seq.segment(1), Some("b"));
    assert_eq!(seq.segment(2), Some("c"));
    assert_eq!(seq.first_segment(), Some("a"));
    assert_eq!(seq.last_segment(), Some("c"));
}

#[test]
fn segment_sequence_segments_copy() {
    let seq = SegmentSequence::create("/", "x/y/z");
    assert_eq!(seq.segments(), &["x".to_string(), "y".to_string(), "z".to_string()]);
}

#[test]
fn segment_sequence_sub_segments() {
    let seq = SegmentSequence::create("/", "a/b/c/d");
    assert_eq!(seq.sub_segments(1, 3), &["b".to_string(), "c".to_string()]);
}

#[test]
fn segment_sequence_char_sequence() {
    let seq = SegmentSequence::create("/", "foo/bar");
    assert_eq!(seq.char_at(0), Some('f'));
    assert_eq!(seq.char_at(3), Some('/'));
    assert_eq!(seq.char_at(4), Some('b'));
    assert_eq!(seq.sub_sequence(0, 3), "foo");
    assert_eq!(seq.sub_sequence(4, 7), "bar");
}

#[test]
fn segment_sequence_create_vararg() {
    let seq = SegmentSequence::create_from_segments(
        "/",
        vec!["alpha".into(), "beta".into(), "gamma".into()],
    );
    assert_eq!(seq.segment_count(), 3);
    assert_eq!(seq.segment(1), Some("beta"));
    assert_eq!(seq.to_string(), "alpha/beta/gamma");
}

#[test]
fn segment_sequence_create_split_segment() {
    let seq = SegmentSequence::create_from_segments("/", vec!["foo/bar".into(), "baz".into()]);
    assert_eq!(seq.segment_count(), 3);
    assert_eq!(seq.to_string(), "foo/bar/baz");
}

#[test]
fn segment_sequence_append_string() {
    let seq = SegmentSequence::create("/", "a/b");
    let seq2 = seq.append_segment("c");
    assert_eq!(seq2.segment_count(), 3);
    assert_eq!(seq2.to_string(), "a/b/c");
    assert_eq!(seq.segment_count(), 2);
}

#[test]
fn segment_sequence_append_string_with_delimiter() {
    let seq = SegmentSequence::create("/", "a");
    let seq2 = seq.append_segment("b/c");
    assert_eq!(seq2.segment_count(), 3);
    assert_eq!(seq2.to_string(), "a/b/c");
}

#[test]
fn segment_sequence_append_segment_sequence() {
    let a = SegmentSequence::create("/", "a/b");
    let b = SegmentSequence::create("/", "c/d");
    let c = a.append(&b);
    assert_eq!(c.segment_count(), 4);
    assert_eq!(c.to_string(), "a/b/c/d");
}

#[test]
fn segment_sequence_append_different_delimiter() {
    let a = SegmentSequence::create("/", "a/b");
    let b_ = SegmentSequence::create(".", "c.d");
    let c = a.append(&b_);
    assert_eq!(c.delimiter(), "/");
    assert_eq!(c.to_string(), "a/b/c/d");
}

#[test]
fn segment_sequence_append_vector() {
    let seq = SegmentSequence::create("/", "a");
    let seq2 = seq.append_segments(&["b", "c", "d"]);
    assert_eq!(seq2.segment_count(), 4);
    assert_eq!(seq2.to_string(), "a/b/c/d");
}

#[test]
fn segment_sequence_content_equal() {
    let a = SegmentSequence::create("/", "x/y/z");
    let b = SegmentSequence::create("/", "x/y/z");
    assert_eq!(a.segments(), b.segments());
    assert_eq!(a.segment_count(), b.segment_count());
}

#[test]
fn segment_sequence_length_and_count() {
    let seq = SegmentSequence::create("/", "ab/cd/ef");
    assert_eq!(seq.segment_count(), 3);
    assert_eq!(seq.length(), 8);
    assert_eq!(seq.length(), seq.to_string().len());
}

#[test]
fn segment_sequence_builder_basic() {
    let b = SegmentSequenceBuilder::new("/").append("a").append("b").append("c").build();
    assert_eq!(b.segment_count(), 3);
    assert_eq!(b.to_string(), "a/b/c");
}

#[test]
fn segment_sequence_builder_to_string() {
    let seq = SegmentSequenceBuilder::new("/").append("only").append("more").build();
    assert_eq!(seq.to_string(), "only/more");
}

#[test]
fn segment_sequence_builder_append_char() {
    let segs = SegmentSequence::create(".", "a.b.c");
    assert_eq!(segs.segment_count(), 3);
    assert_eq!(segs.to_string(), "a.b.c");
}

#[test]
fn segment_sequence_builder_reverse() {
    let b = SegmentSequenceBuilder::new("/")
        .append("a")
        .append("b")
        .append("c")
        .reverse()
        .build();
    assert_eq!(b.to_string(), "c/b/a");
}

#[test]
fn segment_sequence_single_segment() {
    let seq = SegmentSequence::create("/", "only");
    assert_eq!(seq.segment_count(), 1);
    assert_eq!(seq.length(), 4);
    assert_eq!(seq.to_string(), "only");
}

#[test]
fn segment_sequence_different_delimiters_distinct() {
    let a = SegmentSequence::create("/", "x");
    let b = SegmentSequence::create(".", "x");
    assert_ne!(a.delimiter(), b.delimiter());
}

// Own tests.

#[test]
fn segment_sequence_create_then_to_string_round_trips() {
    for v in ["a/b/c", "", "/", "a//b/", "only"] {
        assert_eq!(SegmentSequence::create("/", v).to_string(), v);
    }
}

#[test]
fn segment_sequence_empty_delimiter_splits_per_char() {
    let seq = SegmentSequence::create("", "abc");
    assert_eq!(seq.segment_count(), 3);
    assert_eq!(seq.segment(1), Some("b"));
    assert_eq!(seq.to_string(), "abc");
}

#[test]
fn segment_sequence_length_counts_utf8_bytes() {
    let seq = SegmentSequence::create("/", "é/x");
    assert_eq!(seq.length(), 4);
    assert_eq!(seq.char_at(1), Some('/'));
}

#[test]
fn segment_sequence_out_of_range_access() {
    let seq = SegmentSequence::create("/", "a/b");
    assert_eq!(seq.segment(2), None);
    assert_eq!(seq.char_at(3), None);
}

#[test]
fn uri_parse_to_string_round_trips() {
    for s in [
        "file:///a/b/c",
        "platform:/resource/p/x.arxml#//frag",
        "http://host:80/p?q=1#f",
        "rel/path",
        "/abs/path",
        "urn:isbn:123",
        "",
    ] {
        assert_eq!(Uri::parse(s).to_string(), s);
    }
}

#[test]
fn uri_opaque_and_device_parts() {
    let u = Uri::parse("urn:isbn:123");
    assert!(u.is_scheme_opaque());
    assert_eq!(u.opaque_part(), "isbn:123");
    let d = Uri::parse("file://C:/dir/x");
    assert_eq!(d.device(), "C:");
    assert_eq!(d.path(), "/dir/x");
}

#[test]
fn uri_deresolve_counts_base_segments() {
    let base = Uri::parse("file:///a/b/c.xmi");
    let target = Uri::parse("file:///a/d/e.xmi");
    let rel = target.deresolve(&base);
    assert_eq!(rel.to_string(), "../../d/e.xmi");
    assert!(rel.is_relative());
}

#[test]
fn uri_segments_of_absolute_path() {
    let u = Uri::parse("file:///a/b/c");
    assert_eq!(u.segments(), vec!["a".to_string(), "b".to_string(), "c".to_string()]);
    assert_eq!(u.segment(1), Some("b".to_string()));
    assert_eq!(u.segment(3), None);
}

#[test]
fn uri_create_file_uri_in_relative_path() {
    let u = Uri::create_file_uri_in("x/y.arxml", Some("/work"));
    assert_eq!(u.to_string(), "file:///work/x/y.arxml");
}

#[test]
fn uri_platform_path_is_hierarchical() {
    let u = Uri::parse("platform:/resource/m/app.arxml");
    assert_eq!(u.scheme(), "platform");
    assert!(u.is_hierarchical());
    assert!(!u.is_scheme_opaque());
    assert_eq!(u.path(), "/resource/m/app.arxml");
    assert_eq!(u.segments(), vec!["resource", "m", "app.arxml"]);
    assert_eq!(u.to_string(), "platform:/resource/m/app.arxml");
}

#[test]
fn segment_count_is_delimiter_matches_plus_one() {
    for value in ["a/b/c", "", "/", "a//b/", "abc"] {
        let s = SegmentSequence::create("/", value);
        assert_eq!(s.to_string(), value);
        assert_eq!(s.segment_count(), value.matches("/").count() + 1);
        assert_eq!(s.length(), s.to_string().len());
    }
    assert_eq!(SegmentSequence::empty("/").length(), 0);
}
