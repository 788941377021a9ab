use emulsion::paths::ci_le_bytes;
use emulsion::paths::dir_of_bytes;
use emulsion::paths::join_bytes;
use emulsion::paths::name_has_allowed_ext;

#[test]
fn directory_part_of_path() {
    assert_eq!(dir_of_bytes(&b"a/b/c.png".to_vec()), b"a/b".to_vec());
    assert_eq!(dir_of_bytes(&b"c.png".to_vec()), b"".to_vec());
    assert_eq!(dir_of_bytes(&b"a/c.png".to_vec()), b"a".to_vec());
}

#[test]
fn join_directory_and_name() {
    assert_eq!(join_bytes(&b"a/b".to_vec(), &b"c.png".to_vec()), b"a/b/c.png".to_vec());
    assert_eq!(join_bytes(&b"".to_vec(), &b"c.png".to_vec()), b"c.png".to_vec());
}

#[test]
fn case_insensitive_order() {
    assert!(ci_le_bytes(&b"Apple.png".to_vec(), &b"banana.png".to_vec()));
    assert!(ci_le_bytes(&b"banana.png".to_vec(), &b"BANANA.png".to_vec()));
    assert!(ci_le_bytes(&b"BANANA.png".to_vec(), &b"banana.png".to_vec()));
    assert!(!ci_le_bytes(&b"cherry.png".to_vec(), &b"Banana.png".to_vec()));
    assert!(ci_le_bytes(&b"ab".to_vec(), &b"abc".to_vec()));
    assert!(!ci_le_bytes(&b"abc".to_vec(), &b"ab".to_vec()));
}

#[test]
fn extension_allow_list() {
    let exts: Vec<Vec<u8>> = vec![b"png".to_vec(), b"jpg".to_vec()];
    assert!(name_has_allowed_ext(&b"a.png".to_vec(), &exts));
    assert!(name_has_allowed_ext(&b"a.PNG".to_vec(), &exts));
    assert!(name_has_allowed_ext(&b"a.b.JPg".to_vec(), &exts));
    assert!(!name_has_allowed_ext(&b"a.txt".to_vec(), &exts));
    assert!(!name_has_allowed_ext(&b"png".to_vec(), &exts));
}
