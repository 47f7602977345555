use twse_announcements::extract::announcement_type_from_detail;
use twse_announcements::extract::decode_hidden_fields;
use twse_announcements::extract::extract;
use twse_announcements::extract::fact_date_from_detail;
use twse_announcements::extract::form_fields;
use twse_announcements::extract::has_no_data_phrase;
use twse_announcements::extract::HiddenField;

fn data_table(rows: &str) -> String {
    format!(
        "<html><body><p>noise</p><table><tr><th class=\"tblHead\">日期</th></tr>{rows}</table></body></html>"
    )
}

#[test]
fn one_plain_row_yields_one_announcement() {
    let html = data_table(
        "<tr><td>2025-08-15</td><td>07:00:03</td><td>2330</td><td>TSMC</td><td>Announce X</td></tr>",
    );
    let out = extract(&html);
    assert_eq!(out.len(), 1);
    let a = &out[0];
    assert_eq!(a.date, "2025-08-15");
    assert_eq!(a.time, "07:00:03");
    assert_eq!(a.company_code, "2330");
    assert_eq!(a.company_name, "TSMC");
    assert_eq!(a.title, "Announce X");
    assert_eq!(a.detail_content, None);
    assert_eq!(a.announcement_type, None);
    assert_eq!(a.fact_date, None);
    assert_eq!(a.fact_occurrence_date, None);
    assert_eq!(a.clause_code, None);
    assert_eq!(a.query_date, None);
    assert!(a.raw_html.is_some());
}

#[test]
fn hidden_fact_occurrence_date_is_normalized() {
    let html = data_table(
        "<tr><td>2025-08-15</td><td>07:00:03</td><td>2330</td><td>TSMC</td><td>T</td>\
         <input type=\"hidden\" name=\"h07\" value=\"20250815\"></tr>",
    );
    let out = extract(&html);
    assert_eq!(out.len(), 1);
    assert_eq!(out[0].fact_occurrence_date.as_deref(), Some("2025-08-15"));
}

#[test]
fn four_cell_row_is_dropped() {
    let html = data_table(
        "<tr><td>2025-08-15</td><td>07:00:03</td><td>2330</td><td>TSMC</td></tr>",
    );
    let out = extract(&html);
    assert_eq!(out.len(), 0);
}

#[test]
fn empty_first_cell_row_is_dropped() {
    let html = data_table(
        "<tr><td>  </td><td>07:00:03</td><td>2330</td><td>TSMC</td><td>T</td></tr>",
    );
    assert_eq!(extract(&html).len(), 0);
}

#[test]
fn only_the_first_qualifying_table_is_used() {
    let html = format!(
        "<html><body>\
         <table><tr><td>skip</td></tr></table>\
         <table><tr><th class=\"tblHead\">h</th></tr>\
         <tr><td>2025-08-15</td><td>07:00</td><td>2330</td><td>A</td><td>T1</td></tr></table>\
         <table><tr><th class=\"tblHead\">h</th></tr>\
         <tr><td>2025-08-16</td><td>08:00</td><td>2454</td><td>B</td><td>T2</td></tr></table>\
         </body></html>"
    );
    let out = extract(&html);
    assert_eq!(out.len(), 1);
    assert_eq!(out[0].company_code, "2330");
}

#[test]
fn no_qualifying_table_yields_empty() {
    let html = "<html><body><table><tr><td>a</td></tr></table></body></html>";
    assert_eq!(extract(html).len(), 0);
}

#[test]
fn title_line_breaks_are_collapsed() {
    let html = data_table(
        "<tr><td>2025-08-15</td><td>07:00</td><td>2330</td><td>A</td><td>line one\nline two</td></tr>",
    );
    let out = extract(&html);
    assert_eq!(out.len(), 1);
    assert_eq!(out[0].title, "line one line two");
}

#[test]
fn decoder_dispatches_on_name_suffix() {
    let detail = "1.事實發生日：114/08/15\n2.符合條款第 51 款\n3.其他說明";
    let fields = vec![
        HiddenField { name: "h06".to_string(), value: " 51 ".to_string() },
        HiddenField { name: "h07".to_string(), value: "20250815".to_string() },
        HiddenField { name: "h08".to_string(), value: detail.to_string() },
        HiddenField { name: "h09".to_string(), value: "ignored".to_string() },
    ];
    let d = decode_hidden_fields(&fields);
    assert_eq!(d.clause_code.as_deref(), Some("51"));
    assert_eq!(d.fact_occurrence_date.as_deref(), Some("2025-08-15"));
    assert_eq!(d.detail_content.as_deref(), Some(detail));
    assert_eq!(d.fact_date.as_deref(), Some("114/08/15"));
    assert_eq!(d.announcement_type.as_deref(), Some("2.符合條款第 51 款"));
}

#[test]
fn detail_content_is_stored_verbatim() {
    let raw = "\n  1.事實發生日：114/08/15  \n  detail body  \n";
    let fields = vec![HiddenField { name: "h08".to_string(), value: raw.to_string() }];
    let d = decode_hidden_fields(&fields);
    assert_eq!(d.detail_content.as_deref(), Some(raw));
    assert_eq!(d.fact_date.as_deref(), Some("114/08/15"));
}

#[test]
fn decoder_ignores_empty_values_and_unknown_suffixes() {
    let fields = vec![
        HiddenField { name: "h06".to_string(), value: "   ".to_string() },
        HiddenField { name: "h03".to_string(), value: "data".to_string() },
    ];
    let d = decode_hidden_fields(&fields);
    assert_eq!(d.clause_code, None);
    assert_eq!(d.detail_content, None);
}

#[test]
fn decoder_keeps_malformed_fact_occurrence_value_verbatim() {
    let fields = vec![HiddenField { name: "x7".to_string(), value: "114/08/15".to_string() }];
    let d = decode_hidden_fields(&fields);
    assert_eq!(d.fact_occurrence_date.as_deref(), Some("114/08/15"));
}

#[test]
fn detail_scans_are_best_effort() {
    assert_eq!(fact_date_from_detail("no label here"), None);
    assert_eq!(fact_date_from_detail("事實發生日 without colon"), None);
    assert_eq!(
        fact_date_from_detail("x\n事實發生日： 2025/08/15 \ny").as_deref(),
        Some("2025/08/15")
    );
    assert_eq!(announcement_type_from_detail("nothing"), None);
    assert_eq!(
        announcement_type_from_detail("a\n  符合條款第 4 款  \nb").as_deref(),
        Some("符合條款第 4 款")
    );
}

#[test]
fn no_data_phrases_are_recognized() {
    assert!(has_no_data_phrase("<p>沒有找到重大訊息</p>"));
    assert!(has_no_data_phrase("...無重大訊息..."));
    assert!(has_no_data_phrase("查詢沒有找到資料"));
    assert!(has_no_data_phrase("<b>NO Data</b> returned"));
    assert!(!has_no_data_phrase("<table>plenty</table>"));
}

#[test]
fn form_fields_use_local_year_and_padding() {
    let fields = form_fields(2025, 8, 5);
    let pairs: Vec<(&str, &str)> =
        fields.iter().map(|p| (p.0.as_str(), p.1.as_str())).collect();
    assert_eq!(
        pairs,
        vec![
            ("encodeURIComponent", "1"),
            ("step", "1"),
            ("step00", "0"),
            ("firstin", "1"),
            ("off", "1"),
            ("TYPEK", "all"),
            ("year", "114"),
            ("month", "08"),
            ("day", "05"),
        ]
    );
}

#[test]
fn carriage_returns_in_titles_collapse_too() {
    // The HTML parser itself normalizes CRLF to LF, so one space remains.
    let html = data_table(
        "<tr><td>2025-08-15</td><td>07:00</td><td>2330</td><td>A</td><td>a\r\nb</td></tr>",
    );
    let out = extract(&html);
    assert_eq!(out.len(), 1);
    assert_eq!(out[0].title, "a b");
}

#[test]
fn extra_cells_beyond_five_are_ignored() {
    let html = data_table(
        "<tr><td>2025-08-15</td><td>07:00</td><td>2330</td><td>A</td><td>T</td><td>extra</td></tr>",
    );
    let out = extract(&html);
    assert_eq!(out.len(), 1);
    assert_eq!(out[0].title, "T");
}
