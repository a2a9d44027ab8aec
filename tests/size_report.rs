use gearbuild::SizeInfo;

#[test]
fn single_object() {
    let input = r#"objs/hello.c.o  :
section           size   addr
.text               22      0
.data                0      0
.bss                 0      0
.rodata.str1.1      12      0
.comment            18      0
.note.GNU-stack      0      0
.eh_frame           48      0
Total              100
"#;
    let info: SizeInfo = input.parse().unwrap();
    assert_eq!(info.objects.len(), 1);
    assert_eq!(info.objects[0].name, "objs/hello.c.o");
    assert_eq!(info.objects[0].archive, None);
    assert_eq!(info.objects[0].size, 100);
    assert_eq!(info.objects[0].sections.len(), 7);
    assert_eq!(info.objects[0].sections.iter().find(|s| s.name == ".bss").unwrap().address, 0);
    assert_eq!(info.objects[0].sections.iter().find(|s| s.name == ".text").unwrap().size, 22);
    assert_eq!(info.size, 100);
    assert_eq!(info.sections.len(), 7);
    assert_eq!(info.sections[0].1, 22);
}

#[test]
fn archive() {
    let input = r#"hello.c.o   (ex my libs/libhello.a):
section           size   addr
.text               22      0
.data                0      0
.bss                 0      0
.rodata.str1.1      12      0
.comment            18      0
.note.GNU-stack      0      0
.eh_frame           48      0
Total              100


bye .c.o   (ex my libs/libhello.a):
section           size   addr
.text               12      0
.data                0      0
.bss                 0      0
.rodata.str1.1       5      0
.comment            18      0
.note.GNU-stack      0      0
.eh_frame           48      0
Total               83
"#;
    let info: SizeInfo = input.parse().unwrap();
    assert_eq!(info.objects.len(), 2);
    assert_eq!(info.objects[0].name, "hello.c.o");
    assert_eq!(info.objects[0].archive, Some("my libs/libhello.a".into()));
    assert_eq!(info.objects[0].size, 100);
    assert_eq!(info.objects[1].name, "bye .c.o");
    assert_eq!(info.objects[1].archive, Some("my libs/libhello.a".into()));
    assert_eq!(info.objects[1].size, 83);
    assert_eq!(info.size, 183);
    assert_eq!(info.sections.len(), 7);
    assert_eq!(info.sections[0].1, 34);
}

#[test]
fn size_report_rejects_broken_text() {
    assert!("x.o:\nsection size addr\nTotal 1\n".parse::<SizeInfo>().is_err());
    assert!("x.o:\nsection size addr\n.a 1 0\nTotal 1\n".parse::<SizeInfo>().is_ok());
    assert!("x.o:\nsection size addr\n.a 1 0\nTotal 1".parse::<SizeInfo>().is_err());
    assert!("x.o (in lib.a):\nsection size addr\nTotal 1\n".parse::<SizeInfo>().is_err());
    let empty: SizeInfo = "".parse().unwrap();
    assert!(empty.objects.is_empty());
    let big = "a.o:\nsection size addr\n.t 18446744073709551615 0\nTotal 18446744073709551615\n\n\nb.o:\nsection size addr\n.t 1 0\nTotal 1\n";
    assert!(big.parse::<SizeInfo>().is_err());
}
