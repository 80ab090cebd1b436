use rust_str_bench::aligned_writer::AlignedWriter;

fn words(v: &[&str]) -> Vec<String> {
    v.iter().map(|s| s.to_string()).collect()
}

#[test]
fn new_writer_has_empty_lines() {
    let w = AlignedWriter::new(3);
    assert_eq!(w.lines(), &words(&["", "", ""]));
    assert_eq!(AlignedWriter::new(0).lines().len(), 0);
}

#[test]
fn left_aligned_column_pads_on_the_right() {
    let mut w = AlignedWriter::new(3);
    w.write_n_l(&words(&["ab", "c", "def"]));
    assert_eq!(w.lines(), &words(&["ab ", "c  ", "def"]));
    for line in w.lines() {
        assert_eq!(line.len(), 3);
    }
}

#[test]
fn right_aligned_column_pads_on_the_left() {
    let mut w = AlignedWriter::new(3);
    w.write_n_r(&words(&["ab", "c", "def"]));
    assert_eq!(w.lines(), &words(&[" ab", "  c", "def"]));
    for line in w.lines() {
        assert_eq!(line.len(), 3);
    }
}

#[test]
fn write_appends_the_same_text_to_every_line() {
    let mut w = AlignedWriter::new(2);
    w.write(" avg=");
    w.write("");
    assert_eq!(w.lines(), &words(&[" avg=", " avg="]));
}

#[test]
fn columns_are_concatenated_into_rows() {
    let mut w = AlignedWriter::new(2);
    w.write_n_l(&words(&["find:", "find_simd:"]));
    w.write(" avg=");
    w.write_n_r(&words(&["12.345ns", "7.100ns"]));
    w.write(" std=");
    w.write_n_r(&words(&["0.010ns", "11.000ns"]));
    assert_eq!(
        w.lines(),
        &words(&[
            "find:      avg=12.345ns std= 0.010ns",
            "find_simd: avg= 7.100ns std=11.000ns",
        ])
    );
}

#[test]
fn empty_words_make_an_empty_column() {
    let mut w = AlignedWriter::new(2);
    w.write_n_l(&words(&["", ""]));
    w.write_n_r(&words(&["", "x"]));
    assert_eq!(w.lines(), &words(&[" ", "x"]));
}

#[test]
fn width_counts_bytes_and_padding_counts_chars() {
    let mut w = AlignedWriter::new(2);
    w.write_n_l(&words(&["\u{e9}", "ab"]));
    assert_eq!(w.lines(), &words(&["\u{e9} ", "ab"]));
    let mut w = AlignedWriter::new(1);
    w.write("\u{e9}");
    assert_eq!(w.lines(), &words(&["\u{e9} "]));
}
