use termrec::search::{delete_subslices, find_subslice};

#[test]
fn test_delete_subslices() {
    assert_eq!(delete_subslices(b"", &[]).as_ref(), b"");
    assert_eq!(delete_subslices(b"", &[b"foo"]).as_ref(), b"");
    assert_eq!(
        delete_subslices(b"aaabbbcccde", &[]).as_ref(),
        b"aaabbbcccde"
    );
    assert_eq!(
        delete_subslices(b"aaabbbcccde", &[b"aaaa"]).as_ref(),
        b"aaabbbcccde"
    );
    assert_eq!(
        delete_subslices(b"aaabbbcccde", &[b"aaa", b"ccc"]).as_ref(),
        b"bbbde"
    );
    assert_eq!(
        delete_subslices(b"aaabbbccccaade", &[b"ccc", b"aa"]).as_ref(),
        b"abbbcde"
    );
}

#[test]
fn find_subslice_returns_the_leftmost_match() {
    assert_eq!(find_subslice(b"abcabc", b"bc"), Some(1));
    assert_eq!(find_subslice(b"abcabc", b"abcabc"), Some(0));
    assert_eq!(find_subslice(b"abcabc", b"cab"), Some(2));
    assert_eq!(find_subslice(b"abcabc", b"c"), Some(2));
}

#[test]
fn find_subslice_reports_absence() {
    assert_eq!(find_subslice(b"abcabc", b"abcabcd"), None);
    assert_eq!(find_subslice(b"abcabc", b"ca "), None);
    assert_eq!(find_subslice(b"", b"a"), None);
    assert_eq!(find_subslice(b"", b""), None);
}
