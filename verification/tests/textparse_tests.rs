use twse_announcements::textparse::parse_announcement_line;
use twse_announcements::textparse::parse_text_content;

#[test]
fn announcement_line_splits_on_the_marker() {
    let line = "114/08/17 07:00:03 世界健身-KY 公告本公司取得使用權資產 2762";
    let a = parse_announcement_line(line).unwrap();
    assert_eq!(a.date, "114/08/17");
    assert_eq!(a.time, "07:00:03");
    assert_eq!(a.company_code, "2762");
    assert_eq!(a.company_name, "世界健身-KY");
    assert_eq!(a.title, "公告本公司取得使用權資產");
    assert_eq!(a.detail_content, None);
    assert_eq!(a.raw_html, None);
}

#[test]
fn announcement_line_falls_back_to_word_split() {
    let line = "114/08/17 07:00:03 alpha beta gamma 2330";
    let a = parse_announcement_line(line).unwrap();
    assert_eq!(a.date, "114/08/17");
    assert_eq!(a.time, "07:00:03");
    assert_eq!(a.company_code, "2330");
    assert_eq!(a.company_name, "alpha");
    assert_eq!(a.title, "beta gamma");
}

#[test]
fn line_without_spaces_yields_nothing() {
    assert!(parse_announcement_line("nodate").is_none());
    assert!(parse_announcement_line("date only").is_none());
}

#[test]
fn text_content_starts_after_the_separator() {
    let content = "\
公司當日重大訊息之詳細內容\n\
日期 時間 名稱 標題 代號\n\
114/08/17 07:00:03 ignored before separator 1111\n\
--------\n\
114/08/17 07:00:03 甲公司 公告重大事項 2330\n\
\n\
114/08/18 08:01:02 乙公司 公告另一事項 2454\n";
    let out = parse_text_content(content);
    assert_eq!(out.len(), 2);
    assert_eq!(out[0].company_code, "2330");
    assert_eq!(out[0].company_name, "甲公司");
    assert_eq!(out[1].company_code, "2454");
    assert_eq!(out[1].date, "114/08/18");
}

#[test]
fn text_content_without_separator_yields_nothing() {
    let content = "114/08/17 07:00:03 甲公司 公告重大事項 2330\n";
    assert_eq!(parse_text_content(content).len(), 0);
}
