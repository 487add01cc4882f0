use flatgfa::file::{encode_store, FileView};
use flatgfa::flat::LineKind;
use flatgfa::parse::Parser;

fn lines(src: &[&str]) -> Vec<Vec<u8>> {
    let mut out = Vec::new();
    for s in src {
        out.push(s.as_bytes().to_vec());
    }
    out
}

#[test]
fn encode_then_view_round_trips_all_pools() {
    let input = lines(&[
        "H\tVN:Z:1.0",
        "S\t1\tACGT",
        "S\t2\tGGAA\tkk:Z:v",
        "L\t1\t+\t2\t-\t3M",
        "P\t9\t1+,2-\t4M",
    ]);
    let st = Parser::parse(&input).unwrap();
    let data = encode_store(&st);
    let v = FileView::new(&data).unwrap();

    assert_eq!(v.count(), 2);
    for i in 0..st.segs.len() {
        let seg = v.get_seg(&data, i as u32);
        assert_eq!(seg, st.segs[i]);
        let seq = v.get_seq(&data, &seg);
        let expect = &st.seq_data[seg.seq.start as usize..seg.seq.end as usize];
        assert_eq!(seq, expect);
    }
    for i in 0..st.headers.len() {
        assert_eq!(v.get_header(&data, i as u32), st.headers[i]);
    }
    for i in 0..st.links.len() {
        assert_eq!(v.get_link(&data, i as u32), st.links[i]);
    }
    for i in 0..st.paths.len() {
        assert_eq!(v.get_path(&data, i as u32), st.paths[i]);
    }
    for i in 0..st.steps.len() {
        assert_eq!(v.get_step(&data, i as u32), st.steps[i]);
    }
    for i in 0..st.overlaps.len() {
        let sp = v.get_overlap(&data, i as u32);
        assert_eq!(sp, st.overlaps[i]);
        let od = v.get_overlap_data(&data, sp);
        assert_eq!(od, &st.overlap_data[sp.start as usize..sp.end as usize]);
    }
    let kinds: Vec<LineKind> =
        (0..st.line_order.len()).map(|i| v.get_line_kind(&data, i as u32)).collect();
    assert_eq!(kinds, st.line_order);
}

#[test]
fn rereading_the_same_region_is_identical() {
    let input = lines(&["S\t1\tAC", "S\t2\tGT", "L\t1\t+\t2\t+\t*", "P\t5\t1+,2+\t*"]);
    let st = Parser::parse(&input).unwrap();
    let data = encode_store(&st);
    let v = FileView::new(&data).unwrap();
    let segs1: Vec<_> = (0..v.count()).map(|i| v.get_seg(&data, i as u32)).collect();
    let segs2: Vec<_> = (0..v.count()).map(|i| v.get_seg(&data, i as u32)).collect();
    assert_eq!(segs1, segs2);
    assert_eq!(v.get_link(&data, 0), v.get_link(&data, 0));
    assert_eq!(v.get_path(&data, 0), v.get_path(&data, 0));
    let s1 = v.get_seq(&data, &segs1[0]).to_vec();
    let s2 = v.get_seq(&data, &segs2[0]).to_vec();
    assert_eq!(s1, s2);
}

#[test]
fn view_rejects_inconsistent_region() {
    let input = lines(&["S\t1\tAC"]);
    let st = Parser::parse(&input).unwrap();
    let mut data = encode_store(&st);
    assert!(FileView::new(&data).is_some());
    data.push(0);
    assert!(FileView::new(&data).is_none());
    assert!(FileView::new(&[1, 2, 3]).is_none());
}
