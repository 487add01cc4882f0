use flatgfa::flat::{LineKind, Orientation};
use flatgfa::parse::{NameMap, ParseError, Parser};

fn lines(src: &[&str]) -> Vec<Vec<u8>> {
    let mut out = Vec::new();
    for s in src {
        out.push(s.as_bytes().to_vec());
    }
    out
}

fn bytes(store_data: &[u8], span: flatgfa::pool::Span) -> &[u8] {
    &store_data[span.start as usize..span.end as usize]
}

#[test]
fn parse_basic_graph() {
    let input = lines(&[
        "H\tVN:Z:1.0",
        "S\t1\tACGT",
        "S\t2\tGG",
        "L\t1\t+\t2\t+\t0M",
        "P\t3\t1+,2-\t4M",
    ]);
    let st = Parser::parse(&input).unwrap();

    assert_eq!(st.headers.len(), 1);
    assert_eq!(bytes(&st.header_data, st.headers[0]), b"VN:Z:1.0");

    assert_eq!(st.segs.len(), 2);
    assert_eq!(st.segs[0].name, 1);
    assert_eq!(bytes(&st.seq_data, st.segs[0].seq), b"ACGT");
    assert_eq!(st.segs[1].name, 2);
    assert_eq!(bytes(&st.seq_data, st.segs[1].seq), b"GG");

    assert_eq!(st.links.len(), 1);
    assert_eq!(st.links[0].from.segment, 0);
    assert_eq!(st.links[0].from.orient, Orientation::Forward);
    assert_eq!(st.links[0].to.segment, 1);
    assert_eq!(st.links[0].to.orient, Orientation::Forward);
    assert_eq!(bytes(&st.overlap_data, st.links[0].overlap), b"0M");

    assert_eq!(st.paths.len(), 1);
    let p = st.paths[0];
    assert_eq!(p.name, 3);
    let steps = &st.steps[p.steps.start as usize..p.steps.end as usize];
    assert_eq!(steps.len(), 2);
    assert_eq!(steps[0].segment, 0);
    assert_eq!(steps[0].orient, Orientation::Forward);
    assert_eq!(steps[1].segment, 1);
    assert_eq!(steps[1].orient, Orientation::Backward);
    assert_eq!(p.overlaps.end - p.overlaps.start, 1);
    let od = st.overlaps[p.overlaps.start as usize];
    assert_eq!(bytes(&st.overlap_data, od), b"4M");
}

#[test]
fn line_order_reproduces_interleaving() {
    let input = lines(&[
        "S\t1\tA",
        "H\tmeta",
        "L\t1\t+\t1\t-\t*",
        "P\t2\t1+\t*",
        "H\tmore",
        "S\t2\tC",
    ]);
    let st = Parser::parse(&input).unwrap();
    assert_eq!(
        st.line_order,
        vec![
            LineKind::Segment,
            LineKind::Header,
            LineKind::Link,
            LineKind::Path,
            LineKind::Header,
            LineKind::Segment,
        ]
    );
}

#[test]
fn forward_reference_resolves_after_all_segments() {
    let input = lines(&["L 2 + 1 + *", "S 2 ACGT", "S 1 GGGG"]);
    let st = Parser::parse(&input).unwrap();
    assert_eq!(st.segs[0].name, 2);
    assert_eq!(st.segs[1].name, 1);
    assert_eq!(st.links.len(), 1);
    assert_eq!(st.links[0].from.segment, 0);
    assert_eq!(st.links[0].to.segment, 1);
    assert_eq!(st.line_order, vec![LineKind::Link, LineKind::Segment, LineKind::Segment]);
}

#[test]
fn undeclared_link_name_fails() {
    let input = lines(&["S\t1\tA", "L\t1\t+\t9\t+\t*"]);
    let err = Parser::parse(&input).unwrap_err();
    assert_eq!(err, ParseError::Undefined { name: 9 });
}

#[test]
fn undeclared_path_step_fails() {
    let input = lines(&["S\t1\tA", "P\t7\t1+,9-\t*"]);
    let err = Parser::parse(&input).unwrap_err();
    assert_eq!(err, ParseError::Undefined { name: 9 });
}

#[test]
fn malformed_lines_fail_with_index() {
    let inputs: Vec<(Vec<Vec<u8>>, usize)> = vec![
        (lines(&["S\t1\tA", "X hello"]), 1),
        (lines(&[""]), 0),
        (lines(&["S"]), 0),
        (lines(&["S\t1"]), 0),
        (lines(&["S\tabc\tA"]), 0),
        (lines(&["L\t1\t?\t2\t+\t*"]), 0),
    ];
    for (input, at) in inputs {
        let err = Parser::parse(&input).unwrap_err();
        assert_eq!(err, ParseError::Malformed { line: at });
    }
}

#[test]
fn malformed_path_steps_fail() {
    let input = lines(&["S\t1\tA", "P\t5\tabc\t*"]);
    let err = Parser::parse(&input).unwrap_err();
    assert_eq!(err, ParseError::Malformed { line: 1 });
}

#[test]
fn segment_tags_kept_verbatim() {
    let input = lines(&["S\t1\tACGT\txx:Z:y\tzz:i:3"]);
    let st = Parser::parse(&input).unwrap();
    assert_eq!(bytes(&st.seg_data, st.segs[0].data), b"xx:Z:y\tzz:i:3");
}

#[test]
fn sequential_names_keep_explicit_table_empty() {
    let mut nm = NameMap::new();
    nm.insert(1, 0);
    nm.insert(2, 1);
    nm.insert(3, 2);
    assert_eq!(nm.explicit_len(), 0);
    assert_eq!(nm.sequential_limit(), 3);
    assert_eq!(nm.get(1), Some(0));
    assert_eq!(nm.get(2), Some(1));
    assert_eq!(nm.get(3), Some(2));
    assert_eq!(nm.get(4), None);
}

#[test]
fn nonsequential_names_use_explicit_table() {
    let mut nm = NameMap::new();
    nm.insert(5, 0);
    nm.insert(1, 1);
    assert_eq!(nm.explicit_len(), 2);
    assert_eq!(nm.sequential_limit(), 0);
    assert_eq!(nm.get(5), Some(0));
    assert_eq!(nm.get(1), Some(1));
    assert_eq!(nm.get(2), None);
}

#[test]
fn sequential_parse_resolves_through_fast_path() {
    let input = lines(&["S\t1\tA", "S\t2\tC", "S\t3\tG", "L\t1\t+\t3\t-\t*", "P\t9\t1+,2+,3-\t*,*"]);
    let st = Parser::parse(&input).unwrap();
    assert_eq!(st.links[0].from.segment, 0);
    assert_eq!(st.links[0].to.segment, 2);
    let p = st.paths[0];
    let steps = &st.steps[p.steps.start as usize..p.steps.end as usize];
    assert_eq!(steps[2].segment, 2);
    assert_eq!(steps[2].orient, Orientation::Backward);
}
