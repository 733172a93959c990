use ternreader::image_viewer::{EntryKind, ImageData, ImageEntry, ImageError};
use ternreader::sd::{
    book_positions_file, build_path, decode_image_file, format_usize, is_supported, join_usb_path,
    lines, lookup_short_name, parse_book_positions, parse_recent_entries, parse_short_text,
    parse_thumbnail, parse_usize, read_trimg, recent_entries_file, refresh_entries,
    serialize_thumbnail, thumb_hash_hex, thumbnail_name, thumbnail_title_name, trim, ListedEntry,
};

fn s(v: &str) -> String {
    v.to_string()
}

fn trim_file(kind: u8, w: u16, h: u16, data: &[u8]) -> Vec<u8> {
    let mut v = b"TRIM".to_vec();
    v.push(kind);
    v.push(kind);
    v.extend(w.to_le_bytes());
    v.extend(h.to_le_bytes());
    v.extend([0u8; 6]);
    v.extend_from_slice(data);
    v
}

#[test]
fn supported_extensions() {
    assert!(is_supported("BOOK.TRBK"));
    assert!(is_supported("pic.tri"));
    assert!(is_supported("Pic.TRIMG"));
    assert!(is_supported("x.tbk"));
    assert!(is_supported("novel.epub"));
    assert!(is_supported("n.EPB"));
    assert!(!is_supported("photo.png"));
    assert!(!is_supported("trbk"));
}

#[test]
fn host_paths_are_joined() {
    assert_eq!(join_usb_path("", "f"), "/f");
    assert_eq!(join_usb_path("/", "f"), "/f");
    assert_eq!(join_usb_path("/dir//", "f"), "/dir/f");
    assert_eq!(join_usb_path("dir", "f"), "dir/f");
}

#[test]
fn card_paths_are_normalized() {
    assert_eq!(build_path(&[], "x"), "x");
    assert_eq!(build_path(&[s("a"), s(".."), s("b"), s(".")], "c"), "b/c");
    assert_eq!(build_path(&[s("a"), s("")], ".."), "");
}

#[test]
fn thumbnail_names_hash_the_key() {
    assert_eq!(thumb_hash_hex(""), "811c9dc5");
    assert_eq!(thumb_hash_hex("a"), "e40c292c");
    assert_eq!(thumbnail_name("a"), "THe40c29.TRI");
    assert_eq!(thumbnail_title_name("a"), "TTe40c29.TXT");
}

#[test]
fn short_names_are_found_ignoring_case() {
    let names = vec![(s("Long Name.trbk"), s("LONGNA~1.TRB"))];
    assert_eq!(lookup_short_name(&names, "long name.TRBK"), Some(s("LONGNA~1.TRB")));
    assert_eq!(lookup_short_name(&names, "other"), None);
}

#[test]
fn listing_is_filtered_and_sorted() {
    let e = |n: &str, sn: &str, d: bool| ListedEntry { name: s(n), short_name: s(sn), is_dir: d };
    let listing = vec![
        e("zeta.trbk", "ZETA.TRB", false),
        e("Books", "BOOKS", true),
        e(".hidden", "HIDDEN~1", false),
        e("notes.txt", "NOTES.TXT", false),
        e("alpha.tri", "ALPHA.TRI", false),
        e("TRBOOKS", "TRBOOKS", false),
        e("Apps", "APPS", true),
        e("secret.tri", ".SECRET", false),
    ];
    let (entries, names) = refresh_entries(&listing);
    let got: Vec<(String, EntryKind)> = entries.iter().map(|x| (x.name.clone(), x.kind)).collect();
    assert_eq!(
        got,
        vec![
            (s("Apps"), EntryKind::Dir),
            (s("Books"), EntryKind::Dir),
            (s("alpha.tri"), EntryKind::File),
            (s("zeta.trbk"), EntryKind::File),
        ]
    );
    assert_eq!(names.len(), 8);
    assert_eq!(names[0], (s("zeta.trbk"), s("ZETA.TRB")));
}

#[test]
fn numbers_parse_and_format() {
    assert_eq!(parse_usize("42"), Some(42));
    assert_eq!(parse_usize("007"), Some(7));
    assert_eq!(parse_usize(""), None);
    assert_eq!(parse_usize("4a"), None);
    assert_eq!(parse_usize("-1"), None);
    assert_eq!(parse_usize("99999999999999999999999999"), None);
    assert_eq!(format_usize(0), "0");
    assert_eq!(format_usize(1234), "1234");
}

#[test]
fn text_helpers() {
    assert_eq!(trim("  x y \t"), "x y");
    assert_eq!(lines("a\r\nb\n\nc"), vec![s("a"), s("b"), s(""), s("c")]);
    assert_eq!(lines("a\n"), vec![s("a")]);
}

#[test]
fn book_positions_file_format() {
    let data = book_positions_file(&[(s("a.trbk"), 3), (s("dir/b.trbk"), 10)]).unwrap();
    assert_eq!(data, b"a.trbk\t3\ndir/b.trbk\t10\n".to_vec());
    assert!(book_positions_file(&[]).is_none());
    let parsed = parse_book_positions(b"a.trbk\t3\n bad\n\tx\n b \t 12 \r\nc\tnope\n");
    assert_eq!(parsed, vec![(s("a.trbk"), 3), (s("b"), 12)]);
    assert!(parse_book_positions(&[0xFF, b'\t', b'1']).is_empty());
}

#[test]
fn book_positions_round_trip() {
    let entries = vec![(s("x.trbk"), 0), (s("y.trbk"), 99)];
    let data = book_positions_file(&entries).unwrap();
    assert_eq!(parse_book_positions(&data), entries);
}

#[test]
fn recent_entries_file_format() {
    let data = recent_entries_file(&[s("a.tri"), s("b/c.trbk")]).unwrap();
    assert_eq!(data, b"a.tri\nb/c.trbk\n".to_vec());
    assert!(recent_entries_file(&[]).is_none());
    assert_eq!(parse_recent_entries(b" a \n\n b\r\n"), vec![s("a"), s("b")]);
    assert_eq!(parse_recent_entries(&data), vec![s("a.tri"), s("b/c.trbk")]);
}

#[test]
fn short_text_files() {
    assert_eq!(parse_short_text(b"  book.trbk\n"), Some(s("book.trbk")));
    assert_eq!(parse_short_text(b"   "), None);
    assert_eq!(parse_short_text(b""), None);
    assert_eq!(parse_short_text(&[0xC3]), None);
}

#[test]
fn thumbnails_round_trip() {
    let img = ImageData::Mono1 { width: 3, height: 2, bits: vec![0xA0] };
    let data = serialize_thumbnail(&img).unwrap();
    assert_eq!(data, trim_file(1, 3, 2, &[0xA0]));
    match parse_thumbnail(&data) {
        Some(ImageData::Mono1 { width, height, bits }) => {
            assert_eq!((width, height), (3, 2));
            assert_eq!(bits, vec![0xA0]);
        },
        _ => panic!("expected a 1-bit thumbnail"),
    }
    let gray = ImageData::Gray2 { width: 1, height: 1, data: vec![1, 2, 3] };
    let gdata = serialize_thumbnail(&gray).unwrap();
    assert!(matches!(parse_thumbnail(&gdata), Some(ImageData::Gray2 { width: 1, height: 1, ref data }) if *data == vec![1, 2, 3]));
    assert!(serialize_thumbnail(&ImageData::Mono1 { width: 8, height: 8, bits: vec![0] }).is_none());
    assert!(serialize_thumbnail(&ImageData::Gray8 { width: 1, height: 1, pixels: vec![0] }).is_none());
    assert!(parse_thumbnail(b"TRIX").is_none());
}

#[test]
fn image_files_are_decoded() {
    let file = ImageEntry { name: s("pic.tri"), kind: EntryKind::File };
    let mono = trim_file(1, 2, 2, &[0xF0]);
    match decode_image_file(&[], &file, mono.len(), &mono) {
        Ok(ImageData::Mono1 { width: 2, height: 2, bits }) => assert_eq!(bits, vec![0xF0]),
        _ => panic!("expected a 1-bit image"),
    }
    let gray = trim_file(2, 2, 2, &[1, 2, 3]);
    match decode_image_file(&[s("img")], &file, gray.len(), &gray[..16]) {
        Ok(ImageData::Gray2Stream { width: 2, height: 2, key }) => assert_eq!(key, "img/pic.tri"),
        _ => panic!("expected a streamed image"),
    }
    assert!(matches!(decode_image_file(&[], &file, mono.len() + 1, &mono), Err(ImageError::Decode)));
    let folder = ImageEntry { name: s("dir"), kind: EntryKind::Dir };
    assert!(matches!(decode_image_file(&[], &folder, 20, &mono), Err(ImageError::Message(ref m)) if m == "Select a file, not a folder."));
    let epub = ImageEntry { name: s("b.EPUB"), kind: EntryKind::File };
    assert!(matches!(decode_image_file(&[], &epub, 20, &mono), Err(ImageError::Message(ref m)) if m == "EPUB files must be converted to .trbk."));
    let book = ImageEntry { name: s("b.trbk"), kind: EntryKind::File };
    assert!(matches!(decode_image_file(&[], &book, 20, &mono), Err(ImageError::Unsupported)));
    assert!(matches!(decode_image_file(&[], &file, 300_000, &mono), Err(ImageError::Message(ref m)) if m == "Image size not supported on device."));
    assert!(matches!(decode_image_file(&[], &file, 20, b"JUNKJUNKJUNKJUNK"), Err(ImageError::Unsupported)));
}

#[test]
fn whole_image_files_are_read() {
    let mono = trim_file(1, 2, 2, &[0xF0]);
    assert!(matches!(read_trimg(&mono, mono.len()), Ok(ImageData::Mono1 { width: 2, height: 2, ref bits }) if *bits == vec![0xF0]));
    let gray = trim_file(2, 2, 2, &[1, 2, 3]);
    assert!(matches!(read_trimg(&gray, gray.len()), Ok(ImageData::Gray2 { ref data, .. }) if *data == vec![1, 2, 3]));
    assert!(matches!(read_trimg(&gray, gray.len() + 1), Err(ImageError::Decode)));
    assert!(matches!(read_trimg(&gray[..18], gray.len()), Err(ImageError::Decode)));
    assert!(matches!(read_trimg(&gray[..10], 10), Err(ImageError::Decode)));
    assert!(matches!(read_trimg(&trim_file(3, 1, 1, &[0]), 17), Err(ImageError::Unsupported)));
    let mut bad = mono.clone();
    bad[0] = b'X';
    assert!(matches!(read_trimg(&bad, bad.len()), Err(ImageError::Unsupported)));
}
