use rustudp::file::TFile;

#[test]
fn file_test() {
    let my_string = String::from("Hello, Rust!");
    let bytes = my_string.into_bytes();

    let t = TFile::new_in_client("test1".to_string(), bytes).unwrap();
    let s = String::from_utf8(t.content().clone()).unwrap();
    println!("{:?}", s);
    assert_eq!(s, "Hello, Rust!");
}

#[test]
fn record_keeps_name_length_and_content() {
    let t = TFile::new_in_client("a.bin".to_string(), vec![9, 8, 7, 6]).unwrap();
    assert_eq!(t.name(), "a.bin");
    assert_eq!(t.length(), 4);
    assert_eq!(t.content(), &vec![9u8, 8, 7, 6]);
}

#[test]
fn record_may_be_empty() {
    let t = TFile::new_in_client(String::new(), Vec::new()).unwrap();
    assert_eq!(t.name(), "");
    assert_eq!(t.length(), 0);
    assert!(t.content().is_empty());
}

#[test]
fn length_is_the_number_of_bytes() {
    for n in [0usize, 1, 2, 255, 256, 1000] {
        let t = TFile::new_in_client("n".to_string(), vec![0u8; n]).unwrap();
        assert_eq!(t.length(), n);
        assert_eq!(t.length(), t.content().len());
    }
}

#[test]
fn clone_is_an_equal_record() {
    let t = TFile::new_in_client("c".to_string(), vec![1, 2, 3]).unwrap();
    let u = t.clone();
    assert_eq!(u.name(), t.name());
    assert_eq!(u.length(), t.length());
    assert_eq!(u.content(), t.content());
}

#[test]
fn write_succeeds_and_changes_nothing() {
    let mut t = TFile::new_in_client("w".to_string(), vec![5, 5]).unwrap();
    assert!(t.write_tfile().is_ok());
    assert_eq!(t.name(), "w");
    assert_eq!(t.length(), 2);
    assert_eq!(t.content(), &vec![5u8, 5]);
}
