use std::io::{BufRead, BufReader, Cursor};
use tass::index::Index;

fn scan_all(bytes: &[u8]) -> Index {
    let mut idx = Index::no_file();
    loop {
        let from = idx.cursor() as usize;
        if idx.update(&bytes[from..]) == 0 {
            return idx;
        }
    }
}

#[test]
fn test() {
    let s = b"foo,bar\n1,2\n3,4\n";
    let lines = scan_all(s);
    assert_eq!(lines.len(), 3);
    // line2range never includes the newline char, hence the non-contiguous
    // ranges
    assert_eq!(lines.line2range(0), Some(0..7));
    assert_eq!(lines.line2range(1), Some(8..11));
    assert_eq!(lines.line2range(2), Some(12..15));
    assert_eq!(s.len(), 16);
}

#[test]
fn test_stream() {
    let s = b"foo,bar\n1,2\n3,4\n";
    let idx1 = scan_all(s);

    let s = b"foo,bar\n1,2\n3,4\n".to_vec();
    let mut idx2 = Index::no_file();
    for l in BufReader::new(Cursor::new(s)).lines() {
        idx2.push_line(l.unwrap().len() as u64);
    }

    assert_eq!(idx1.row_offsets(), idx2.row_offsets());
}

#[test]
fn line_past_the_end_is_none() {
    let idx = scan_all(b"a\nb\n");
    assert_eq!(idx.line2range(2), None);
    assert_eq!(idx.line2range(usize::MAX), None);
}

#[test]
fn unterminated_tail_is_not_a_line() {
    let mut idx = Index::no_file();
    assert_eq!(idx.update(b"abc"), 0);
    assert_eq!(idx.len(), 0);
    assert_eq!(idx.cursor(), 0);
    assert_eq!(idx.update(b"abc\nde"), 1);
    assert_eq!(idx.row_offsets(), &[4]);
    assert_eq!(idx.cursor(), 4);
    assert!(idx.up_to_date());
}

#[test]
fn empty_lines_count() {
    let idx = scan_all(b"\n\n\n");
    assert_eq!(idx.row_offsets(), &[1, 2, 3]);
    assert_eq!(idx.line2range(1), Some(1..1));
}

#[test]
fn stopped_index_ignores_updates() {
    let mut idx = Index::no_file();
    idx.stop_watching();
    assert!(idx.up_to_date());
    assert_eq!(idx.update(b"a\nb\n"), 0);
    assert_eq!(idx.len(), 0);
}

#[test]
fn line_counts_never_shrink_and_spans_stay() {
    let data = b"x,y\n10,20\n30,40\n50";
    let mut idx = Index::no_file();
    let mut spans = Vec::new();
    let mut last_len = 0;
    for end in 0..=data.len() {
        let from = idx.cursor() as usize;
        idx.update(&data[from..end]);
        assert!(idx.len() >= last_len);
        for (i, span) in spans.iter().enumerate() {
            assert_eq!(idx.line2range(i).as_ref(), Some(span));
        }
        while spans.len() < idx.len() {
            spans.push(idx.line2range(spans.len()).unwrap());
        }
        last_len = idx.len();
    }
    assert_eq!(idx.row_offsets(), &[4, 10, 16]);
}

#[test]
fn split_scan_matches_single_scan() {
    let data = "a,b,c,d\n1,2,3,4\n5,6,7,8\n9,👻,10,11\n12,13,14,15\n".as_bytes();
    let whole = scan_all(data);
    for k in 0..=data.len() {
        let mut idx = scan_all(&data[..k]);
        loop {
            let from = idx.cursor() as usize;
            if idx.update(&data[from..]) == 0 {
                break;
            }
        }
        assert_eq!(idx.row_offsets(), whole.row_offsets());
    }
}

#[test]
fn search_finds_rows_in_order() {
    let data = b"name,x\nalpha,1\nbeta,2\nalphabet,3\ngamma";
    let idx = scan_all(data);
    assert_eq!(idx.search(data, b"alpha", 1), vec![0, 2]);
    assert_eq!(idx.search(data, b"a", 0), vec![0, 1, 2, 3]);
    assert_eq!(idx.search(data, b"gamma", 0), Vec::<usize>::new());
    assert_eq!(idx.search(data, b"", 1), vec![0, 1, 2]);
}

#[test]
fn line_start_clamps_to_cursor() {
    let idx = scan_all(b"ab\ncd\nef");
    assert_eq!(idx.line_start(0), 0);
    assert_eq!(idx.line_start(1), 3);
    assert_eq!(idx.line_start(2), 6);
    assert_eq!(idx.line_start(9), 6);
}
