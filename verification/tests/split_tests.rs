use gloomy::ByteSplit;
use gloomy::DOT;
use gloomy::split_segments;

#[test]
fn test_split_segments_on_dots() {
    let segs = split_segments(b"a.b.c", DOT);
    assert_eq!(segs, vec![b"a".to_vec(), b"b".to_vec(), b"c".to_vec()]);
}

#[test]
fn test_split_segments_empty_input_is_one_empty_segment() {
    let segs = split_segments(b"", DOT);
    assert_eq!(segs, vec![Vec::<u8>::new()]);
}

#[test]
fn test_split_segments_keeps_empty_parts() {
    let segs = split_segments(b"a..b.", DOT);
    assert_eq!(
        segs,
        vec![b"a".to_vec(), Vec::new(), b"b".to_vec(), Vec::new()]
    );
}

#[test]
fn test_byte_split_iterator() {
    let s: &[u8] = b",hello,,how are you,";
    let mut it = s.byte_split(b',');
    let mut parts: Vec<Vec<u8>> = Vec::new();
    while let Some(part) = it.next() {
        parts.push(part.to_vec());
    }
    assert_eq!(
        parts,
        vec![
            Vec::new(),
            b"hello".to_vec(),
            Vec::new(),
            b"how are you".to_vec(),
            Vec::new(),
        ]
    );
}
