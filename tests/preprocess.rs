use goldenrod::preprocess::IncludeResolver;

#[test]
fn finds_first_include_argument() {
    let r = IncludeResolver::new(b"a\n#include lib/common.wgsl\nb #include x.wgsl".to_vec());
    assert_eq!(r.next_include(), Some(b"lib/common.wgsl".to_vec()));
    let none = IncludeResolver::new(b"fn main() {}".to_vec());
    assert_eq!(none.next_include(), None);
}

#[test]
fn inlines_then_skips_repeats() {
    let mut r = IncludeResolver::new(b"#include a.wgsl\nX\n#include a.wgsl\nY".to_vec());
    assert!(!r.is_included(b"/s/a.wgsl"));
    r.inline_directive(b"/s/a.wgsl".to_vec(), b"A");
    assert!(r.is_included(b"/s/a.wgsl"));
    assert_eq!(r.next_include(), Some(b"a.wgsl".to_vec()));
    r.skip_directive();
    assert_eq!(r.next_include(), None);
    assert_eq!(r.into_source(), b"A\nX\n\nY".to_vec());
}

#[test]
fn nested_includes_resolve_in_order() {
    let mut r = IncludeResolver::new(b"top #include b.wgsl end".to_vec());
    r.inline_directive(b"b".to_vec(), b"[#include c.wgsl]");
    assert_eq!(r.next_include(), Some(b"c.wgsl".to_vec()));
    r.inline_directive(b"c".to_vec(), b"C");
    assert_eq!(r.into_source(), b"top [C] end".to_vec());
}
