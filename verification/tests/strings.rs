use pointers::strsplit::StrSplit;
use pointers::strsplit::until_char;
use pointers::strtok::strtok;
use pointers::unbounded_lifetimes::get_str1;
use pointers::unbounded_lifetimes::get_str2;
use pointers::unbounded_lifetimes::get_str2_2;

fn collect_pieces<'r>(mut split: StrSplit<'r, '_>) -> Vec<&'r str> {
    let mut out = Vec::new();
    while let Some(piece) = split.next() {
        out.push(piece);
    }
    out
}

#[test]
fn it_works() {
    let haystack = "a b c d e";
    let splitted = StrSplit::new(haystack, " ");
    assert!(collect_pieces(splitted)
        .into_iter()
        .eq(vec!["a", "b", "c", "d", "e"].into_iter()));
}

#[test]
fn tail() {
    let haystack = "a b c d e ";
    let splitted: Vec<_> = collect_pieces(StrSplit::new(haystack, " "));
    assert_eq!(splitted, vec!["a", "b", "c", "d", "e", ""]);
}

#[test]
fn until_char_test() {
    assert_eq!(until_char("Hello World", 'r'), "Hello Wo");
}

#[test]
fn until_char_absent_gives_whole_input() {
    assert_eq!(until_char("Hello", 'z'), "Hello");
}

#[test]
fn lib_it_works() {
    let mut s: &'static str = "Hello World!";

    let result = strtok(&mut s, ' ');

    assert_eq!(result, "Hello");
    assert_eq!(s, "World!");
}

#[test]
fn strtok_without_delimiter_takes_everything() {
    let mut s: &'static str = "token";
    let result = strtok(&mut s, ',');
    assert_eq!(result, "token");
    assert_eq!(s, "");
}

#[test]
fn test_get_str1() {
    let s = "Hello World".to_string();
    let s1 = get_str1(&s);
    println!("s1: {s1}");
    assert_eq!(s1, "Hello World");
}

#[test]
fn test_get_str2() {
    assert_eq!(get_str2(), "hello");
}

#[test]
fn test_get_str2_2() {
    assert_eq!(get_str2_2(), "hello");
}
