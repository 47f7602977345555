//! The record types of the library: announcements, their identity for
//! deduplication, and the static clause-code reference table.

use vstd::prelude::*;

verus! {

/// One disclosure event, as extracted from the source page.
///
/// `company_code`, `company_name`, `title`, `date` and `time` are never
/// empty after successful extraction; the remaining fields are best-effort
/// and absent where the source omitted them. `query_date` is the calendar
/// date under which a scrape was performed and is assigned by the caller.
#[derive(Clone, Debug, PartialEq)]
pub struct Announcement {
    pub company_code: String,
    pub company_name: String,
    pub title: String,
    pub date: String,
    pub time: String,
    pub detail_content: Option<String>,
    pub announcement_type: Option<String>,
    pub fact_date: Option<String>,
    pub fact_occurrence_date: Option<String>,
    pub clause_code: Option<String>,
    pub raw_html: Option<String>,
    pub query_date: Option<String>,
}

/// The mathematical model of an [`Announcement`]: each field as a character
/// sequence.
pub struct AnnouncementView {
    pub company_code: Seq<char>,
    pub company_name: Seq<char>,
    pub title: Seq<char>,
    pub date: Seq<char>,
    pub time: Seq<char>,
    pub detail_content: Option<Seq<char>>,
    pub announcement_type: Option<Seq<char>>,
    pub fact_date: Option<Seq<char>>,
    pub fact_occurrence_date: Option<Seq<char>>,
    pub clause_code: Option<Seq<char>>,
    pub raw_html: Option<Seq<char>>,
    pub query_date: Option<Seq<char>>,
}

/// The view of an optional string.
pub open spec fn view_opt(o: Option<String>) -> Option<Seq<char>> {
    match o {
        Some(s) => Some(s@),
        None => None,
    }
}

impl View for Announcement {
    type V = AnnouncementView;

    open spec fn view(&self) -> AnnouncementView {
        AnnouncementView {
            company_code: self.company_code@,
            company_name: self.company_name@,
            title: self.title@,
            date: self.date@,
            time: self.time@,
            detail_content: view_opt(self.detail_content),
            announcement_type: view_opt(self.announcement_type),
            fact_date: view_opt(self.fact_date),
            fact_occurrence_date: view_opt(self.fact_occurrence_date),
            clause_code: view_opt(self.clause_code),
            raw_html: view_opt(self.raw_html),
            query_date: view_opt(self.query_date),
        }
    }
}

/// The views of a sequence of announcements.
pub open spec fn views(s: Seq<Announcement>) -> Seq<AnnouncementView> {
    s.map_values(|a: Announcement| a@)
}

/// Two announcements are the same disclosure exactly when the composite
/// identity tuple (company code, date, time, title) agrees; no other field
/// matters for deduplication.
pub open spec fn same_identity(a: AnnouncementView, b: AnnouncementView) -> bool {
    a.company_code == b.company_code && a.date == b.date && a.time == b.time && a.title == b.title
}

impl Announcement {
    /// Decides whether `other` is the same disclosure as `self`, by the
    /// composite identity tuple.
    pub fn identity_matches(&self, other: &Announcement) -> (r: bool)
        ensures
            r == same_identity(self@, other@),
    {
        self.company_code == other.company_code && self.date == other.date && self.time
            == other.time && self.title == other.title
    }

    /// Copies the announcement.
    pub fn duplicate(&self) -> (r: Announcement)
        ensures
            r == *self,
    {
        Announcement {
            company_code: self.company_code.clone(),
            company_name: self.company_name.clone(),
            title: self.title.clone(),
            date: self.date.clone(),
            time: self.time.clone(),
            detail_content: clone_opt(&self.detail_content),
            announcement_type: clone_opt(&self.announcement_type),
            fact_date: clone_opt(&self.fact_date),
            fact_occurrence_date: clone_opt(&self.fact_occurrence_date),
            clause_code: clone_opt(&self.clause_code),
            raw_html: clone_opt(&self.raw_html),
            query_date: clone_opt(&self.query_date),
        }
    }
}

/// Copies an optional string.
pub fn clone_opt(o: &Option<String>) -> (r: Option<String>)
    ensures
        r == *o,
{
    match o {
        Some(s) => Some(s.clone()),
        None => None,
    }
}

// ---------------------------------------------------------------------------
// Clause codes
// ---------------------------------------------------------------------------
/// One entry of the static regulatory clause-code reference table.
#[derive(Clone, Debug, PartialEq)]
pub struct ClauseCode {
    pub code: String,
    pub description: String,
}

impl ClauseCode {
    /// Copies the entry.
    pub fn duplicate(&self) -> (r: ClauseCode)
        ensures
            r == *self,
    {
        ClauseCode { code: self.code.clone(), description: self.description.clone() }
    }
}

/// The fixed clause-code reference table: code and description pairs, as
/// seeded into storage once and never mutated afterwards.
pub open spec fn clause_table_spec() -> Seq<(Seq<char>, Seq<char>)> {
    seq![
        ("1"@, "信用異常或股票交易異動"@),
        ("2"@, "涉訟或主管違法"@),
        ("3"@, "停工、減產、資產處理"@),
        ("4"@, "公司法重大決議"@),
        ("5"@, "重整或破產程序"@),
        ("6"@, "高層人事異動或席次不足"@),
        ("7"@, "更換會計師或承銷商"@),
        ("8"@, "重要主管異動"@),
        ("9"@, "會計年度或政策變更"@),
        ("10"@, "重大契約、合作或新產品量產"@),
        ("11"@, "資本變動或合併收購"@),
        ("12"@, "說明會或未申報資訊發布"@),
        ("13"@, "財務預測差異重大"@),
        ("14"@, "股利政策異動或延遲"@),
        ("15"@, "大額投資計畫"@),
        ("16"@, "增資或債券計畫變動"@),
        ("17"@, "股東會召開通知"@),
        ("18"@, "股東會重要決議"@),
        ("19"@, "舞弊、掏空或主管遭羈押"@),
        ("20"@, "資產交易或衍生損失重大"@),
        ("21"@, "經理人或董事競業行為"@),
        ("22"@, "背書保證達標準"@),
        ("23"@, "資金貸與達標準"@),
        ("24"@, "私募證券交易"@),
        ("25"@, "主要客戶或供應商終止往來"@),
        ("26"@, "災難、罷工、資安等重大事件"@),
        ("27"@, "與銀行協商結果確定"@),
        ("28"@, "關係人或債務人信用異常"@),
        ("29"@, "內控聲明或審查報告"@),
        ("30"@, "財報錯誤或遭保留意見"@),
        ("31"@, "財報提報或自結資訊異動"@),
        ("32"@, "股票集中保管不足"@),
        ("33"@, "股權變動通知"@),
        ("34"@, "董監事遭停止職權"@),
        ("35"@, "公司買回股份"@),
        ("36"@, "減資或面額異動作業"@),
        ("37"@, "上市承諾未履行"@),
        ("38"@, "公開收購申報或通知"@),
        ("40"@, "暫停或恢復交易"@),
        ("41"@, "控股公司持股變動"@),
        ("42"@, "終止上市或改列申請"@),
        ("43"@, "重大捐贈"@),
        ("44"@, "委員會反對或董事會逾越建議"@),
        ("45"@, "增資由特定人認購"@),
        ("46"@, "子公司達終止上市標準或營收為零"@),
        ("47"@, "海外財報與台灣準則差異"@),
        ("48"@, "特定營業細則情事"@),
        ("49"@, "子公司控制力喪失或持股下降"@),
        ("50"@, "子公司海外掛牌相關事項"@),
        ("51"@, "其他重大決策或影響股價事件"@),
    ]
}

fn push_clause(v: &mut Vec<ClauseCode>, code: &str, description: &str)
    ensures
        final(v)@.len() == old(v)@.len() + 1,
        forall|i: int| 0 <= i < old(v)@.len() ==> final(v)@[i] == old(v)@[i],
        final(v)@.last().code@ == code@,
        final(v)@.last().description@ == description@,
{
    v.push(
        ClauseCode {
            code: String::from_str(code),
            description: String::from_str(description),
        },
    );
}

/// Builds the clause-code reference table.
pub fn clause_code_table() -> (r: Vec<ClauseCode>)
    ensures
        r@.len() == clause_table_spec().len(),
        forall|i: int|
            0 <= i < r@.len() ==> #[trigger] r@[i].code@ == clause_table_spec()[i].0 && r@[
                i
            ].description@ == clause_table_spec()[i].1,
{
    let mut v: Vec<ClauseCode> = Vec::new();
    push_clause(&mut v, "1", "信用異常或股票交易異動");
    push_clause(&mut v, "2", "涉訟或主管違法");
    push_clause(&mut v, "3", "停工、減產、資產處理");
    push_clause(&mut v, "4", "公司法重大決議");
    push_clause(&mut v, "5", "重整或破產程序");
    push_clause(&mut v, "6", "高層人事異動或席次不足");
    push_clause(&mut v, "7", "更換會計師或承銷商");
    push_clause(&mut v, "8", "重要主管異動");
    push_clause(&mut v, "9", "會計年度或政策變更");
    push_clause(&mut v, "10", "重大契約、合作或新產品量產");
    push_clause(&mut v, "11", "資本變動或合併收購");
    push_clause(&mut v, "12", "說明會或未申報資訊發布");
    push_clause(&mut v, "13", "財務預測差異重大");
    push_clause(&mut v, "14", "股利政策異動或延遲");
    push_clause(&mut v, "15", "大額投資計畫");
    push_clause(&mut v, "16", "增資或債券計畫變動");
    push_clause(&mut v, "17", "股東會召開通知");
    push_clause(&mut v, "18", "股東會重要決議");
    push_clause(&mut v, "19", "舞弊、掏空或主管遭羈押");
    push_clause(&mut v, "20", "資產交易或衍生損失重大");
    push_clause(&mut v, "21", "經理人或董事競業行為");
    push_clause(&mut v, "22", "背書保證達標準");
    push_clause(&mut v, "23", "資金貸與達標準");
    push_clause(&mut v, "24", "私募證券交易");
    push_clause(&mut v, "25", "主要客戶或供應商終止往來");
    push_clause(&mut v, "26", "災難、罷工、資安等重大事件");
    push_clause(&mut v, "27", "與銀行協商結果確定");
    push_clause(&mut v, "28", "關係人或債務人信用異常");
    push_clause(&mut v, "29", "內控聲明或審查報告");
    push_clause(&mut v, "30", "財報錯誤或遭保留意見");
    push_clause(&mut v, "31", "財報提報或自結資訊異動");
    push_clause(&mut v, "32", "股票集中保管不足");
    push_clause(&mut v, "33", "股權變動通知");
    push_clause(&mut v, "34", "董監事遭停止職權");
    push_clause(&mut v, "35", "公司買回股份");
    push_clause(&mut v, "36", "減資或面額異動作業");
    push_clause(&mut v, "37", "上市承諾未履行");
    push_clause(&mut v, "38", "公開收購申報或通知");
    push_clause(&mut v, "40", "暫停或恢復交易");
    push_clause(&mut v, "41", "控股公司持股變動");
    push_clause(&mut v, "42", "終止上市或改列申請");
    push_clause(&mut v, "43", "重大捐贈");
    push_clause(&mut v, "44", "委員會反對或董事會逾越建議");
    push_clause(&mut v, "45", "增資由特定人認購");
    push_clause(&mut v, "46", "子公司達終止上市標準或營收為零");
    push_clause(&mut v, "47", "海外財報與台灣準則差異");
    push_clause(&mut v, "48", "特定營業細則情事");
    push_clause(&mut v, "49", "子公司控制力喪失或持股下降");
    push_clause(&mut v, "50", "子公司海外掛牌相關事項");
    push_clause(&mut v, "51", "其他重大決策或影響股價事件");
    v
}

/// The clause-code table is seeded only into an empty collection: a count
/// of zero calls for seeding, anything else leaves the table untouched.
pub fn needs_seed(existing_count: u64) -> (r: bool)
    ensures
        r == (existing_count == 0),
{
    existing_count == 0
}

} // verus!
