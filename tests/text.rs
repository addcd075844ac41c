use tass::text::ceil_char_boundary;

#[test]
fn boundaries_of_multibyte_text() {
    let s = "a👻b";
    assert_eq!(ceil_char_boundary(s, 0), 0);
    assert_eq!(ceil_char_boundary(s, 1), 1);
    assert_eq!(ceil_char_boundary(s, 2), 5);
    assert_eq!(ceil_char_boundary(s, 4), 5);
    assert_eq!(ceil_char_boundary(s, 6), 6);
    assert_eq!(ceil_char_boundary(s, 60), 6);
}
