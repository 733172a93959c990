use std::collections::HashMap;

use ternreader::book_build::{
    build_advance_map, build_toc_entries, collapse_double_prefix, compute_spine_page_map,
    encode_trbk, hex_val, layout_blocks, measure_token_width, normalize_path, paginate_items,
    percent_decode, percent_decode_bytes, split_whitespace, strip_fragment, style_id_from_style,
    trimg_to_bytes, wrap_paragraph_runs, Glyph, HtmlBlock, ImageAsset, ImageRef, LayoutItem,
    PageData, PageOp, RenderOptions, SpineBlocks, StyleId, TextRun, TextStyle, TocSource,
    TrbkMetadata,
};
use ternreader::glyph_bitmap::pack_gray2_bitmap;
use ternreader::trbk::{TrbkOp, TrbkTocEntry};
use ternreader::trbk_file::{check_page_starts, open_trbk, parse_trbk_header, parse_trbk_metadata, trbk_page};

fn regular() -> TextStyle {
    TextStyle { bold: false, italic: false }
}

fn run(text: &str) -> TextRun {
    TextRun { text: text.to_string(), style: regular() }
}

fn texts(line: &[TextRun]) -> Vec<String> {
    line.iter().map(|r| r.text.clone()).collect()
}

#[test]
fn default_render_options() {
    let o = RenderOptions::default();
    assert_eq!((o.screen_width, o.screen_height), (480, 800));
    assert_eq!((o.margin_x, o.margin_y), (16, 60));
    assert_eq!((o.line_height, o.char_width, o.ascent, o.word_spacing), (20, 10, 14, 2));
    assert_eq!(o.max_spine_items, 50);
}

#[test]
fn style_ids_follow_emphasis() {
    assert_eq!(style_id_from_style(TextStyle { bold: false, italic: false }), StyleId::Regular);
    assert_eq!(style_id_from_style(TextStyle { bold: true, italic: false }), StyleId::Bold);
    assert_eq!(style_id_from_style(TextStyle { bold: false, italic: true }), StyleId::Italic);
    assert_eq!(style_id_from_style(TextStyle { bold: true, italic: true }), StyleId::BoldItalic);
    assert_eq!(StyleId::BoldItalic.code(), 3);
}

#[test]
fn fragment_and_query_are_cut() {
    assert_eq!(strip_fragment("text/ch1.xhtml#sec2"), "text/ch1.xhtml");
    assert_eq!(strip_fragment("img.png?v=3"), "img.png");
    assert_eq!(strip_fragment("plain/path"), "plain/path");
}

#[test]
fn paths_are_normalized() {
    assert_eq!(normalize_path("OEBPS/./text/../images//a.png"), "OEBPS/images/a.png");
    assert_eq!(normalize_path("../../a"), "a");
    assert_eq!(normalize_path(""), "");
}

#[test]
fn doubled_package_folder_is_collapsed() {
    assert_eq!(collapse_double_prefix("OEBPS/OEBPS/img.png", "OEBPS/"), "OEBPS/img.png");
    assert_eq!(collapse_double_prefix("OEBPS/OEBPS//img.png", "OEBPS"), "OEBPS/img.png");
    assert_eq!(collapse_double_prefix("OEBPS/img.png", "OEBPS"), "OEBPS/img.png");
    assert_eq!(collapse_double_prefix("x/x/y", ""), "x/x/y");
}

#[test]
fn hex_digits() {
    assert_eq!(hex_val(b'0'), Some(0));
    assert_eq!(hex_val(b'a'), Some(10));
    assert_eq!(hex_val(b'F'), Some(15));
    assert_eq!(hex_val(b'g'), None);
}

#[test]
fn percent_escapes_are_decoded() {
    assert_eq!(percent_decode("a%20b%2Fc"), "a b/c");
    assert_eq!(percent_decode("%41"), "A");
    assert_eq!(percent_decode("100%"), "100%");
    assert_eq!(percent_decode("%4"), "%4");
    assert_eq!(percent_decode("%zz"), "%zz");
    assert_eq!(percent_decode_bytes(b"%e2%82%ac"), vec![0xE2, 0x82, 0xAC]);
    assert_eq!(percent_decode("%e2%82%ac"), "\u{20ac}");
    assert_eq!(percent_decode("%ff"), "\u{fffd}");
}

#[test]
fn words_are_split_at_whitespace() {
    assert_eq!(split_whitespace("  hello \t world\n"), vec!["hello".to_string(), "world".to_string()]);
    assert!(split_whitespace(" \u{3000} ").is_empty());
}

#[test]
fn token_width_uses_glyph_advances() {
    let o = RenderOptions::default();
    let glyphs = vec![Glyph {
        codepoint: 'a' as u32,
        style: StyleId::Regular,
        width: 1,
        height: 1,
        x_advance: 7,
        x_offset: 0,
        y_offset: 1,
        bitmap_bw: vec![0],
        bitmap_lsb: vec![0],
        bitmap_msb: vec![0],
    }];
    let map = build_advance_map(&glyphs);
    assert_eq!(map.len(), 1);
    assert_eq!(measure_token_width("ab", regular(), &o, &map), 17);
    assert_eq!(measure_token_width("ab", TextStyle { bold: true, italic: false }, &o, &map), 20);
}

#[test]
fn later_glyph_replaces_earlier_advance() {
    let g = |adv: i16| Glyph {
        codepoint: 'x' as u32,
        style: StyleId::Italic,
        width: 0,
        height: 0,
        x_advance: adv,
        x_offset: 0,
        y_offset: 0,
        bitmap_bw: vec![],
        bitmap_lsb: vec![],
        bitmap_msb: vec![],
    };
    let map = build_advance_map(&[g(3), g(5)]);
    let o = RenderOptions::default();
    assert_eq!(measure_token_width("xx", TextStyle { bold: false, italic: true }, &o, &map), 10);
}

#[test]
fn paragraph_wraps_greedily() {
    let o = RenderOptions::default();
    let map = HashMap::new();
    let runs = vec![run("aaa bbb ccc")];
    let narrow = wrap_paragraph_runs(&runs, 70, &o, &map);
    assert_eq!(narrow.len(), 3);
    assert_eq!(texts(&narrow[0]), vec!["aaa"]);
    let wide = wrap_paragraph_runs(&runs, 80, &o, &map);
    assert_eq!(wide.len(), 2);
    assert_eq!(texts(&wide[0]), vec!["aaa", " ", "bbb"]);
    assert_eq!(texts(&wide[1]), vec!["ccc"]);
}

#[test]
fn newline_in_run_ends_the_line() {
    let o = RenderOptions::default();
    let map = HashMap::new();
    let runs = vec![run("one\n"), run("two")];
    let lines = wrap_paragraph_runs(&runs, 1000, &o, &map);
    assert_eq!(lines.len(), 2);
    assert_eq!(texts(&lines[0]), vec!["one"]);
    assert_eq!(texts(&lines[1]), vec!["two"]);
}

#[test]
fn overlong_word_gets_its_own_line() {
    let o = RenderOptions::default();
    let map = HashMap::new();
    let lines = wrap_paragraph_runs(&[run("ab abcdefghij cd")], 50, &o, &map);
    assert_eq!(lines.len(), 3);
    assert_eq!(texts(&lines[1]), vec!["abcdefghij"]);
}

#[test]
fn blocks_become_layout_items() {
    let o = RenderOptions::default();
    let map = HashMap::new();
    let images = vec![("img/a.png".to_string(), ImageRef { index: 4, width: 100, height: 50 })];
    let blocks = vec![SpineBlocks {
        spine_index: 2,
        blocks: vec![
            HtmlBlock::Paragraph { runs: vec![run("hello")] },
            HtmlBlock::Image { src: "img/a.png".to_string() },
            HtmlBlock::Image { src: "missing.png".to_string() },
            HtmlBlock::PageBreak,
        ],
    }];
    let items = layout_blocks(&blocks, &o, &map, &images);
    assert_eq!(items.len(), 5);
    assert!(matches!(&items[0], LayoutItem::TextLine { spine_index: 2, runs } if runs.len() == 1));
    assert!(matches!(items[1], LayoutItem::BlankLine { spine_index: 2 }));
    assert!(matches!(items[2], LayoutItem::Image { spine_index: 2, image_index: 4, width: 100, height: 50 }));
    assert!(matches!(items[3], LayoutItem::BlankLine { spine_index: 2 }));
    assert!(matches!(items[4], LayoutItem::PageBreak { spine_index: 2 }));
}

#[test]
fn pages_fill_from_the_top_margin() {
    let o = RenderOptions::default();
    let map = HashMap::new();
    let items = vec![
        LayoutItem::TextLine { spine_index: 0, runs: vec![run("a"), run(" "), run("bc")] },
        LayoutItem::BlankLine { spine_index: 0 },
        LayoutItem::Image { spine_index: 0, image_index: 1, width: 30, height: 40 },
    ];
    let pages = paginate_items(&items, &o, &map);
    assert_eq!(pages.len(), 1);
    assert_eq!(pages[0].spine_index, 0);
    let ops = &pages[0].ops;
    assert_eq!(ops.len(), 4);
    assert!(matches!(&ops[0], PageOp::Text { x: 16, y: 74, style: StyleId::Regular, text } if text == "a"));
    assert!(matches!(&ops[1], PageOp::Text { x: 26, y: 74, .. }));
    assert!(matches!(&ops[2], PageOp::Text { x: 38, y: 74, text, .. } if text == "bc"));
    assert!(matches!(ops[3], PageOp::Image { x: 0, y: 100, width: 30, height: 40, image_index: 1 }));
}

#[test]
fn new_spine_item_and_page_break_start_pages() {
    let o = RenderOptions::default();
    let map = HashMap::new();
    let items = vec![
        LayoutItem::TextLine { spine_index: 0, runs: vec![run("a")] },
        LayoutItem::TextLine { spine_index: 1, runs: vec![run("b")] },
        LayoutItem::PageBreak { spine_index: 1 },
        LayoutItem::TextLine { spine_index: 1, runs: vec![run("c")] },
    ];
    let pages = paginate_items(&items, &o, &map);
    assert_eq!(pages.len(), 3);
    assert_eq!(pages[0].spine_index, 0);
    assert_eq!(pages[1].spine_index, 1);
    assert_eq!(pages[2].spine_index, 1);
}

#[test]
fn full_page_overflows_to_the_next() {
    let o = RenderOptions::default();
    let map = HashMap::new();
    let items: Vec<LayoutItem> =
        (0..40).map(|_| LayoutItem::TextLine { spine_index: 0, runs: vec![run("x")] }).collect();
    let pages = paginate_items(&items, &o, &map);
    // 680 pixels between the margins hold 34 lines of 20.
    assert_eq!(pages.len(), 2);
    assert_eq!(pages[0].ops.len(), 34);
    assert_eq!(pages[1].ops.len(), 6);
    assert_eq!(pages[1].spine_index, 0);
}

#[test]
fn empty_book_gets_a_placeholder_page() {
    let o = RenderOptions::default();
    let map = HashMap::new();
    let pages = paginate_items(&[], &o, &map);
    assert_eq!(pages.len(), 1);
    assert_eq!(pages[0].spine_index, -1);
    assert!(matches!(&pages[0].ops[0], PageOp::Text { x: 16, y: 74, text, .. } if text == "(empty)"));
}

#[test]
fn spine_map_points_at_first_pages() {
    let page = |s: i32| PageData { spine_index: s, ops: vec![] };
    let pages = vec![page(0), page(0), page(2), page(-1), page(2)];
    assert_eq!(compute_spine_page_map(&pages, 4), vec![0, -1, 2, -1]);
}

#[test]
fn toc_from_navigation_or_spine() {
    let map = vec![0, -1, 3];
    let nav = vec![
        TocSource { title: "One".to_string(), spine_index: 0, level: 0 },
        TocSource { title: "Missing".to_string(), spine_index: 1, level: 1 },
        TocSource { title: "Three".to_string(), spine_index: 2, level: 1 },
        TocSource { title: "Bad".to_string(), spine_index: -4, level: 0 },
    ];
    let hrefs = vec!["text/a.xhtml".to_string(), "text/b.xhtml".to_string(), "c.xhtml".to_string()];
    let toc = build_toc_entries(&nav, &hrefs, &map);
    assert_eq!(toc.len(), 2);
    assert_eq!((toc[0].title.as_str(), toc[0].page_index, toc[0].level), ("One", 0, 0));
    assert_eq!((toc[1].title.as_str(), toc[1].page_index, toc[1].level), ("Three", 3, 1));
    let fallback = build_toc_entries(&[], &hrefs, &map);
    assert_eq!(fallback.len(), 2);
    assert_eq!((fallback[0].title.as_str(), fallback[0].page_index), ("a.xhtml", 0));
    assert_eq!((fallback[1].title.as_str(), fallback[1].page_index), ("c.xhtml", 3));
}

#[test]
fn coverage_is_banded_into_planes() {
    let (bw, lsb, msb) = pack_gray2_bitmap(&[0, 255, 100, 135], 4, 1);
    assert_eq!(bw, vec![0xA0]);
    assert_eq!(lsb, vec![0x20]);
    assert_eq!(msb, vec![0x10]);
    let (bw, _, _) = pack_gray2_bitmap(&[0; 9], 3, 3);
    assert_eq!(bw, vec![0xFF, 0x80]);
}

#[test]
fn converted_image_bytes() {
    let bytes = trimg_to_bytes(true, 2, 1, &[1, 2, 3]);
    assert_eq!(bytes, vec![b'T', b'R', b'I', b'M', 2, 2, 2, 0, 1, 0, 0, 0, 0, 0, 0, 0, 1, 2, 3]);
    let mono = trimg_to_bytes(false, 300, 2, &[]);
    assert_eq!(&mono[4..10], &[1, 1, 0x2C, 0x01, 2, 0]);
}

fn sample_book() -> Vec<u8> {
    let o = RenderOptions::default();
    let md = TrbkMetadata {
        title: "Title".to_string(),
        author: "Author".to_string(),
        language: "en".to_string(),
        identifier: "id-1".to_string(),
    };
    let glyphs = vec![Glyph {
        codepoint: 'H' as u32,
        style: StyleId::Bold,
        width: 2,
        height: 2,
        x_advance: 9,
        x_offset: -1,
        y_offset: 2,
        bitmap_bw: vec![0xC0],
        bitmap_lsb: vec![0x40],
        bitmap_msb: vec![0x80],
    }];
    let pages = vec![
        PageData {
            spine_index: 0,
            ops: vec![
                PageOp::Text { x: 16, y: 74, style: StyleId::Bold, text: "Hi".to_string() },
                PageOp::Image { x: 0, y: 100, width: 10, height: 10, image_index: 0 },
            ],
        },
        PageData {
            spine_index: 1,
            ops: vec![PageOp::Text { x: 16, y: 74, style: StyleId::Regular, text: "\u{e9}t\u{e9}".to_string() }],
        },
    ];
    let toc = vec![TrbkTocEntry { title: "Chapter".to_string(), page_index: 1, level: 0 }];
    let images = vec![ImageAsset { width: 10, height: 10, data: trimg_to_bytes(false, 10, 10, &[0xFF; 13]) }];
    encode_trbk(&md, &o, &pages, &glyphs, &toc, &images)
}

#[test]
fn written_book_header_reads_back() {
    let bytes = sample_book();
    let h = parse_trbk_header(&bytes).ok().unwrap();
    assert_eq!(h.version, 2);
    assert_eq!((h.screen_width, h.screen_height), (480, 800));
    assert_eq!((h.page_count, h.toc_count, h.glyph_count), (2, 1, 1));
    assert_eq!(h.toc_offset, h.header_size as u32);
    assert!(h.images_offset > h.glyph_table_offset);
    let md = parse_trbk_metadata(&bytes[..h.header_size as usize], h.version).ok().unwrap();
    assert_eq!(md.title, "Title");
    assert_eq!(md.author, "Author");
    assert_eq!(md.language, "en");
    assert_eq!(md.identifier, "id-1");
    assert_eq!(md.font_name, "fontdue");
    assert_eq!((md.char_width, md.line_height, md.ascent), (10, 20, 14));
    assert_eq!((md.margin_left, md.margin_right, md.margin_top, md.margin_bottom), (16, 16, 60, 60));
}

#[test]
fn written_book_opens_with_pages_glyphs_and_images() {
    let bytes = sample_book();
    let layout = open_trbk(&bytes).ok().unwrap();
    assert_eq!(layout.info.page_count, 2);
    assert_eq!(layout.info.toc.len(), 1);
    assert_eq!(layout.info.toc[0].title, "Chapter");
    assert_eq!(layout.info.toc[0].page_index, 1);
    assert_eq!(layout.info.glyphs.len(), 1);
    let g = &layout.info.glyphs[0];
    assert_eq!((g.codepoint, g.style, g.width, g.height), ('H' as u32, 1, 2, 2));
    assert_eq!((g.x_advance, g.x_offset, g.y_offset), (9, -1, 2));
    assert_eq!(g.bitmap_bw, vec![0xC0]);
    assert_eq!(g.bitmap_lsb, Some(vec![0x40]));
    assert_eq!(g.bitmap_msb, Some(vec![0x80]));
    assert_eq!(layout.info.images.len(), 1);
    assert_eq!((layout.info.images[0].width, layout.info.images[0].height), (10, 10));
    assert!(check_page_starts(&layout));
    let p0 = trbk_page(&bytes, &layout, 0).ok().unwrap();
    assert_eq!(p0.ops.len(), 2);
    assert!(matches!(&p0.ops[0], TrbkOp::TextRun { x: 16, y: 74, style: 1, text } if text == "Hi"));
    assert!(matches!(p0.ops[1], TrbkOp::Image { x: 0, y: 100, width: 10, height: 10, image_index: 0 }));
    let p1 = trbk_page(&bytes, &layout, 1).ok().unwrap();
    assert!(matches!(&p1.ops[0], TrbkOp::TextRun { style: 0, text, .. } if text == "\u{e9}t\u{e9}"));
    assert!(trbk_page(&bytes, &layout, 2).is_err());
}

#[test]
fn written_book_page_table_and_toc_read_back() {
    let bytes = sample_book();
    let layout = open_trbk(&bytes).ok().unwrap();
    assert_eq!(layout.page_offsets.len(), 2);
    assert_eq!(layout.page_offsets[0], 0);
    assert!(layout.page_offsets[1] > 0);
    assert!(layout.page_data_offset as usize + (layout.page_offsets[1] as usize) < bytes.len());
    assert_eq!(layout.info.toc[0].level, 0);
}
