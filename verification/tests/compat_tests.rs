use light_reader::chapter_builder::{
    build_href_index, href_filename, href_index_get, infer_paragraph_kind, strip_href_fragment,
};
use light_reader::domain::ParagraphKind;

#[test]
fn strip_href_fragment_removes_hash() {
    assert_eq!(strip_href_fragment("ch1.xhtml#section1"), "ch1.xhtml");
    assert_eq!(strip_href_fragment("ch1.xhtml"), "ch1.xhtml");
    assert_eq!(strip_href_fragment("#fragment"), "");
}

#[test]
fn href_filename_strips_fragment_and_path() {
    assert_eq!(href_filename("OEBPS/ch1.xhtml#section1"), "ch1.xhtml");
    assert_eq!(href_filename("ch1.xhtml"), "ch1.xhtml");
    assert_eq!(href_filename("OEBPS/ch1.xhtml"), "ch1.xhtml");
}

#[test]
fn build_href_index_matches_fragments() {
    let spine = vec!["OEBPS/ch1.xhtml".to_string(), "OEBPS/ch2.xhtml".to_string()];
    let index = build_href_index(&spine);

    assert_eq!(href_index_get(&index, "ch1.xhtml"), Some(0));
    assert_eq!(href_index_get(&index, "ch2.xhtml"), Some(1));
}

#[test]
fn paragraph_kind_separator() {
    assert_eq!(infer_paragraph_kind("***"), ParagraphKind::Separator);
    assert_eq!(infer_paragraph_kind("---"), ParagraphKind::Separator);
    assert_eq!(infer_paragraph_kind("* * *"), ParagraphKind::Separator);
    assert_eq!(infer_paragraph_kind("————"), ParagraphKind::Separator);
    assert_eq!(infer_paragraph_kind("＊＊＊"), ParagraphKind::Separator);
}

#[test]
fn paragraph_kind_quote() {
    assert_eq!(infer_paragraph_kind("> 引用内容"), ParagraphKind::Quote);
    assert_eq!(infer_paragraph_kind("「对话内容」"), ParagraphKind::Quote);
    assert_eq!(infer_paragraph_kind("『引用文字』"), ParagraphKind::Quote);
    assert_eq!(infer_paragraph_kind("\"引用段落\""), ParagraphKind::Quote);
}

#[test]
fn paragraph_kind_title() {
    assert_eq!(infer_paragraph_kind("第1章 开始"), ParagraphKind::Title);
    assert_eq!(infer_paragraph_kind("Chapter 1 Beginning"), ParagraphKind::Title);
    assert_eq!(infer_paragraph_kind("Part 1"), ParagraphKind::Title);
    assert_eq!(infer_paragraph_kind("序章"), ParagraphKind::Title);
    assert_eq!(infer_paragraph_kind("终章 结局"), ParagraphKind::Title);
}

#[test]
fn paragraph_kind_subtitle() {
    assert_eq!(infer_paragraph_kind("一、开篇"), ParagraphKind::Subtitle);
    assert_eq!(infer_paragraph_kind("1. 小节"), ParagraphKind::Subtitle);
    assert_eq!(infer_paragraph_kind("十二、总结"), ParagraphKind::Subtitle);
}

#[test]
fn paragraph_kind_body() {
    assert_eq!(
        infer_paragraph_kind("这是一段普通的正文内容，足够长以避免被误判为标题。"),
        ParagraphKind::Body
    );
    assert_eq!(infer_paragraph_kind("他说：今天天气真好。"), ParagraphKind::Body);
}
