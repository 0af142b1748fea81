//! The session's system prompt: the harness's own instructions, the
//! documents the embedding application supplies about the agent and about
//! the user, and a summary of earlier sessions.
//!
//! Reading the documents and the clock is the application's part; this
//! module decides what is read and how the prompt is put together.
use vstd::prelude::*;

use crate::text::{decimal_view, is_blank, is_blank_view, push_decimal, zero_padded};
use crate::tool::join_view;

verus! {

pub open spec fn agents_header() -> Seq<char> {
    "===以下是关于你的介绍===\n"@
}

pub open spec fn persona_header() -> Seq<char> {
    "\n===以下是关于用户的介绍===\n"@
}

pub open spec fn history_header() -> Seq<char> {
    "\n===历史会话记录摘要===\n"@
}

/// The built-in instructions up to where the current time goes.
pub open spec fn builtin_head() -> Seq<char> {
    r##"## 身份

你是用户的个人智能分身，负责替代或协助用户处理日常事务。

你的目标是：
- 准确理解用户意图；
- 在不确定时主动澄清；
- 涉及外部操作时保持谨慎；
- 保护用户隐私和数据安全。

## 时间和日期

- 默认时区：`Asia/Shanghai`
- 默认语言：简体中文
- 当前日期由运行时注入，不由模型猜测。
- 日期优先使用绝对日期，避免只说“今天”“明天”。
- 标准日期格式：`YYYY-MM-DD`
- 标准时间格式：`HH:mm`
- 标准日期时间格式：`YYYY-MM-DD HH:mm`
- 对外传输使用 ISO 8601：
`YYYY-MM-DDTHH:mm:ss+08:00`
- “今天”表示当前时区当天 `00:00:00`。
- “明天”表示下一天 `00:00:00`。
- 涉及时间范围时，使用左闭右开区间：
`[start_date, end_date)`
- 当前时间`YYYY-MM-DD HH:mm:ss`："##@
}

/// The built-in instructions after the current time.
pub open spec fn builtin_tail() -> Seq<char> {
    r##"

## 工具使用

- 先判断是否真的需要工具。
- 工具参数必须符合工具 Schema。
- 涉及用户数据的工具，只访问完成任务所需的数据。
- 工具失败时，向用户说明原因和可行的下一步。

## 隐私和安全

- 不主动暴露完整隐私数据。
- 展示日程、联系人等信息时，只展示完成任务所需字段。
- 不将用户数据发送给未授权的服务。
- 不猜测密码、密钥、身份信息或敏感属性。
- 对不可逆或高风险操作要求用户明确确认。
"##@
}

/// The built-in instructions with `current_time` put in place of the
/// `{{current_time}}` placeholder.
pub open spec fn builtin_agents_view(current_time: Seq<char>) -> Seq<char> {
    builtin_head() + current_time + builtin_tail()
}

/// The built-in instructions for the given current time.
pub fn builtin_agents(current_time: &str) -> (r: String)
    ensures
        r@ == builtin_agents_view(current_time@),
{
    let mut out = String::new();
    out.append(r##"## 身份

你是用户的个人智能分身，负责替代或协助用户处理日常事务。

你的目标是：
- 准确理解用户意图；
- 在不确定时主动澄清；
- 涉及外部操作时保持谨慎；
- 保护用户隐私和数据安全。

## 时间和日期

- 默认时区：`Asia/Shanghai`
- 默认语言：简体中文
- 当前日期由运行时注入，不由模型猜测。
- 日期优先使用绝对日期，避免只说“今天”“明天”。
- 标准日期格式：`YYYY-MM-DD`
- 标准时间格式：`HH:mm`
- 标准日期时间格式：`YYYY-MM-DD HH:mm`
- 对外传输使用 ISO 8601：
`YYYY-MM-DDTHH:mm:ss+08:00`
- “今天”表示当前时区当天 `00:00:00`。
- “明天”表示下一天 `00:00:00`。
- 涉及时间范围时，使用左闭右开区间：
`[start_date, end_date)`
- 当前时间`YYYY-MM-DD HH:mm:ss`："##);
    out.append(current_time);
    out.append(r##"

## 工具使用

- 先判断是否真的需要工具。
- 工具参数必须符合工具 Schema。
- 涉及用户数据的工具，只访问完成任务所需的数据。
- 工具失败时，向用户说明原因和可行的下一步。

## 隐私和安全

- 不主动暴露完整隐私数据。
- 展示日程、联系人等信息时，只展示完成任务所需字段。
- 不将用户数据发送给未授权的服务。
- 不猜测密码、密钥、身份信息或敏感属性。
- 对不可逆或高风险操作要求用户明确确认。
"##);
    out
}

/// The system prompt: the introduction of the agent (built-in instructions,
/// then the agent documents), the introduction of the user (the persona
/// documents) and the summary of earlier sessions.
pub open spec fn system_prompt_view(
    current_time: Seq<char>,
    agents: Seq<char>,
    persona: Seq<char>,
    history_summary: Seq<char>,
) -> Seq<char> {
    agents_header() + builtin_agents_view(current_time) + agents + "\n"@ + persona_header() + persona
        + history_header() + history_summary
}

pub fn compose_system_prompt(
    current_time: &str,
    agents: &str,
    persona: &str,
    history_summary: &str,
) -> (r: String)
    ensures
        r@ == system_prompt_view(current_time@, agents@, persona@, history_summary@),
{
    let mut out = String::new();
    out.append("===以下是关于你的介绍===\n");
    let builtin = builtin_agents(current_time);
    out.append(builtin.as_str());
    out.append(agents);
    out.append("\n");
    out.append("\n===以下是关于用户的介绍===\n");
    out.append(persona);
    out.append("\n===历史会话记录摘要===\n");
    out.append(history_summary);
    proof {
        assert(out@ =~= system_prompt_view(current_time@, agents@, persona@, history_summary@));
    }
    out
}

/// The documents of a directory, in path order, joined by line breaks.
pub fn join_documents(contents: &Vec<String>) -> (r: String)
    ensures
        r@ == join_view(contents@.map_values(|c: String| c@), "\n"@),
{
    let ghost parts = contents@.map_values(|c: String| c@);
    let mut out = String::new();
    let mut i: usize = 0;
    while i < contents.len()
        invariant
            i <= contents@.len(),
            parts == contents@.map_values(|c: String| c@),
            out@ == join_view(parts.take(i as int), "\n"@),
        decreases contents@.len() - i,
    {
        proof {
            assert(parts.take(i + 1) =~= parts.take(i as int).push(parts[i as int]));
            assert(parts.take(i + 1).drop_last() =~= parts.take(i as int));
        }
        if i > 0 {
            out.append("\n");
        }
        out.append(contents[i].as_str());
        i = i + 1;
    }
    proof {
        assert(parts.take(i as int) =~= parts);
    }
    out
}

pub open spec fn is_leap_year(y: int) -> bool {
    (y % 4 == 0 && y % 100 != 0) || y % 400 == 0
}

pub open spec fn days_in_month(y: int, m: int) -> int {
    if m == 2 {
        if is_leap_year(y) {
            29
        } else {
            28
        }
    } else if m == 4 || m == 6 || m == 9 || m == 11 {
        30
    } else {
        31
    }
}

/// The days of year `y` before month `m` begins.
pub open spec fn days_before_month(y: int, m: int) -> int
    decreases m,
{
    if m <= 1 {
        0
    } else {
        days_before_month(y, m - 1) + days_in_month(y, m - 1)
    }
}

/// The number of leap years among the years 1 to `y`.
pub open spec fn leap_years_through(y: int) -> int {
    y / 4 - y / 100 + y / 400
}

/// The days from 1970-01-01 to the first day of year `y`.
pub open spec fn days_before_year(y: int) -> int {
    365 * (y - 1970) + leap_years_through(y - 1) - leap_years_through(1969)
}

/// The days from 1970-01-01 to the date `y`-`m`-`d` of the Gregorian
/// calendar.
pub open spec fn days_from_civil(y: int, m: int, d: int) -> int {
    days_before_year(y) + days_before_month(y, m) + d - 1
}

proof fn lemma_leap_count(era: int, yoe: int)
    requires
        0 <= yoe <= 399,
    ensures
        leap_years_through(yoe + 400 * era) == 97 * era + yoe / 4 - yoe / 100,
{
    assert((yoe + 400 * era) / 4 == 100 * era + yoe / 4);
    assert((yoe + 400 * era) / 100 == 4 * era + yoe / 100);
    assert((yoe + 400 * era) / 400 == era);
}

#[verifier::spinoff_prover]
proof fn lemma_leap_step(y: int)
    ensures
        leap_years_through(y) - leap_years_through(y - 1) == (if is_leap_year(y) {
            1int
        } else {
            0int
        }),
{
}

proof fn lemma_month_prefix(y: int, m: int)
    requires
        1 <= m <= 12,
    ensures
        m >= 3 ==> days_before_month(y, m) == 59 + (if is_leap_year(y) {
            1int
        } else {
            0int
        }) + (153 * (m - 3) + 2) / 5,
        m <= 2 ==> days_before_month(y, m) == (153 * (m + 9) + 2) / 5 - 306,
{
    reveal_with_fuel(days_before_month, 13);
}

/// The last day of a year that starts in March is February 29th exactly when
/// the year that ends there is a leap year.
proof fn lemma_year_length(doe: int, yoe: int)
    requires
        0 <= doe <= 146_096,
        yoe == (doe - doe / 1_460 + doe / 36_524 - doe / 146_096) / 365,
    ensures
        0 <= doe - (365 * yoe + yoe / 4 - yoe / 100) <= 365,
        doe - (365 * yoe + yoe / 4 - yoe / 100) == 365 ==> (yoe + 1) % 4 == 0 && ((yoe + 1) % 100
            != 0 || yoe + 1 == 400),
{
}

/// The date that the intermediate values of `civil_date_from_days` stand
/// for is the date `days` days after 1970-01-01.
#[verifier::spinoff_prover]
#[verifier::rlimit(60)]
proof fn lemma_civil_date(days: int, era: int, yoe: int, doy: int, mp: int, day: int)
    requires
        0 <= yoe <= 399,
        0 <= doy <= 365,
        doy == 365 ==> (yoe + 1) % 4 == 0 && ((yoe + 1) % 100 != 0 || yoe + 1 == 400),
        days == 146_097 * era + 365 * yoe + yoe / 4 - yoe / 100 + doy - 719_468,
        mp == (5 * doy + 2) / 153,
        day == doy - (153 * mp + 2) / 5 + 1,
    ensures
        ({
            let month = if mp < 10 {
                mp + 3
            } else {
                mp - 9
            };
            let year = yoe + 400 * era + (if month <= 2 {
                1int
            } else {
                0int
            });
            &&& 1 <= month <= 12
            &&& 1 <= day <= days_in_month(year, month)
            &&& days_from_civil(year, month, day) == days
        }),
{
    let y = yoe + 400 * era;
    let month = if mp < 10 {
        mp + 3
    } else {
        mp - 9
    };
    assert(0 <= mp <= 11);
    lemma_leap_count(era, yoe);
    lemma_leap_step(y);
    let leap_y: int = if is_leap_year(y) {
        1
    } else {
        0
    };
    // The days from 1970-01-01 to March 1st of year `y`.
    let march = days_before_year(y) + 59 + leap_y;
    assert(march == 146_097 * era + 365 * yoe + yoe / 4 - yoe / 100 - 719_468);
    assert(days == march + doy);
    if mp < 10 {
        lemma_month_prefix(y, month);
        assert(days_from_civil(y, month, day) == march + (153 * mp + 2) / 5 + day - 1);
        assert(1 <= day <= days_in_month(y, month));
    } else {
        lemma_month_prefix(y + 1, month);
        assert(days_before_year(y + 1) == days_before_year(y) + 365 + leap_y);
        assert(days_from_civil(y + 1, month, day) == march + (153 * mp + 2) / 5 + day - 1);
        if month == 2 && day == 29 {
            assert(doy == 365);
            assert(is_leap_year(y + 1));
        }
        assert(1 <= day <= days_in_month(y + 1, month));
    }
}

/// A date of the Gregorian calendar: a month of the year and a day of the
/// month.
pub open spec fn is_valid_date(y: int, m: int, d: int) -> bool {
    1 <= m <= 12 && 1 <= d <= days_in_month(y, m)
}

proof fn lemma_month_monotone(y: int, m1: int, m2: int)
    requires
        1 <= m1 <= m2 <= 13,
    ensures
        days_before_month(y, m1) <= days_before_month(y, m2),
    decreases m2 - m1,
{
    if m1 < m2 {
        lemma_month_monotone(y, m1, m2 - 1);
    }
}

proof fn lemma_year_span(y: int)
    ensures
        days_before_month(y, 13) == 365 + (if is_leap_year(y) {
            1int
        } else {
            0int
        }),
        days_before_year(y + 1) == days_before_year(y) + days_before_month(y, 13),
{
    reveal_with_fuel(days_before_month, 13);
    lemma_leap_step(y);
}

proof fn lemma_year_monotone(y1: int, y2: int)
    requires
        y1 <= y2,
    ensures
        days_before_year(y1) <= days_before_year(y2),
    decreases y2 - y1,
{
    if y1 < y2 {
        lemma_year_monotone(y1, y2 - 1);
        lemma_year_span(y2 - 1);
    }
}

/// The days of a valid date lie within its year.
proof fn lemma_date_in_year(y: int, m: int, d: int)
    requires
        is_valid_date(y, m, d),
    ensures
        days_before_year(y) <= days_from_civil(y, m, d) < days_before_year(y + 1),
        days_before_month(y, m) <= days_from_civil(y, m, d) - days_before_year(y) < days_before_month(
            y,
            m + 1,
        ),
{
    lemma_year_span(y);
    lemma_month_monotone(y, 1, m);
    lemma_month_monotone(y, m + 1, 13);
    assert(days_before_month(y, m + 1) == days_before_month(y, m) + days_in_month(y, m));
}

/// Distinct dates fall on distinct days: a count of days since 1970-01-01
/// names at most one date, so `civil_date_from_days` has only one possible
/// answer.
pub proof fn law_distinct_dates_are_distinct_days(y1: int, m1: int, d1: int, y2: int, m2: int, d2: int)
    requires
        is_valid_date(y1, m1, d1),
        is_valid_date(y2, m2, d2),
        days_from_civil(y1, m1, d1) == days_from_civil(y2, m2, d2),
    ensures
        y1 == y2 && m1 == m2 && d1 == d2,
{
    lemma_date_in_year(y1, m1, d1);
    lemma_date_in_year(y2, m2, d2);
    if y1 < y2 {
        lemma_year_monotone(y1 + 1, y2);
    } else if y2 < y1 {
        lemma_year_monotone(y2 + 1, y1);
    } else if m1 < m2 {
        lemma_month_monotone(y1, m1 + 1, m2);
    } else if m2 < m1 {
        lemma_month_monotone(y1, m2 + 1, m1);
    }
}

/// The calendar date after `y`-`m`-`d`.
pub open spec fn next_day(y: int, m: int, d: int) -> (int, int, int) {
    if d < days_in_month(y, m) {
        (y, m, d + 1)
    } else if m < 12 {
        (y, m + 1, 1)
    } else {
        (y + 1, 1, 1)
    }
}

/// The day after a date is the next calendar date: a valid date again,
/// one day later.
pub proof fn law_next_day(y: int, m: int, d: int)
    requires
        is_valid_date(y, m, d),
    ensures
        is_valid_date(next_day(y, m, d).0, next_day(y, m, d).1, next_day(y, m, d).2),
        days_from_civil(next_day(y, m, d).0, next_day(y, m, d).1, next_day(y, m, d).2)
            == days_from_civil(y, m, d) + 1,
{
    if d >= days_in_month(y, m) && m < 12 {
        assert(days_before_month(y, m + 1) == days_before_month(y, m) + days_in_month(y, m));
    } else if d >= days_in_month(y, m) {
        lemma_year_span(y);
        assert(days_before_month(y, 13) == days_before_month(y, 12) + days_in_month(y, 12));
    }
}

/// Converts a count of days since 1970-01-01 to the Gregorian calendar date
/// `(year, month, day)`.
pub fn civil_date_from_days(days: i64) -> (r: (i64, u32, u32))
    requires
        days <= i64::MAX - 719_468,
    ensures
        1 <= r.1 <= 12,
        1 <= r.2 <= days_in_month(r.0 as int, r.1 as int),
        days_from_civil(r.0 as int, r.1 as int, r.2 as int) == days,
        days >= 0 ==> r.0 >= 1970,
{
    let z: i64 = days + 719_468;
    let era: i64 = if z >= 0 {
        z / 146_097
    } else {
        -((146_096 - z) / 146_097)
    };
    assert(0 <= z - era * 146_097 <= 146_096) by (nonlinear_arith)
        requires
            z >= 0 ==> era == z / 146_097,
            z < 0 ==> era == -((146_096 - z) / 146_097),
    ;
    let doe: i64 = z - era * 146_097;
    let yoe: i64 = (doe - doe / 1_460 + doe / 36_524 - doe / 146_096) / 365;
    proof {
        lemma_year_length(doe as int, yoe as int);
    }
    let y: i64 = yoe + era * 400;
    let doy: i64 = doe - (365 * yoe + yoe / 4 - yoe / 100);
    let mp: i64 = (5 * doy + 2) / 153;
    let day: i64 = doy - (153 * mp + 2) / 5 + 1;
    proof {
        lemma_civil_date(days as int, era as int, yoe as int, doy as int, mp as int, day as int);
    }
    let month: i64 = mp + if mp < 10 {
        3
    } else {
        -9
    };
    let year: i64 = y + if month <= 2 {
        1
    } else {
        0
    };
    proof {
        if days >= 0 {
            assert(era >= 4) by (nonlinear_arith)
                requires
                    z >= 719_468,
                    era == z / 146_097,
            ;
            if era == 4 {
                assert(z < 5 * 146_097) by (nonlinear_arith)
                    requires
                        z >= 0,
                        era == z / 146_097,
                        era == 4,
                ;
                assert(yoe >= 369);
            }
        }
    }
    (year, month as u32, day as u32)
}

/// `YYYY-MM-DD HH:mm:ss` for the date `year`-`month`-`day` and the time of
/// day `day_seconds` seconds after midnight.
pub open spec fn clock_text(year: int, month: int, day: int, day_seconds: int) -> Seq<char> {
    zero_padded(decimal_view(year as nat), 4) + "-"@ + zero_padded(decimal_view(month as nat), 2)
        + "-"@ + zero_padded(decimal_view(day as nat), 2) + " "@ + zero_padded(
        decimal_view((day_seconds / 3_600) as nat),
        2,
    ) + ":"@ + zero_padded(decimal_view(((day_seconds % 3_600) / 60) as nat), 2) + ":"@
        + zero_padded(decimal_view((day_seconds % 60) as nat), 2)
}

/// Shanghai local time (UTC+8) of the instant `unix_seconds` seconds after
/// the Unix epoch, as `YYYY-MM-DD HH:mm:ss`; the shift to UTC+8 saturates at
/// the end of the `u64` range.
pub fn current_time_shanghai(unix_seconds: u64) -> (r: String)
    ensures
        ({
            let shifted = if unix_seconds + 28_800 <= u64::MAX {
                unix_seconds + 28_800
            } else {
                u64::MAX as int
            };
            exists|y: int, m: int, d: int|
                1 <= m <= 12 && 1 <= d <= days_in_month(y, m) && y >= 1970 && #[trigger] days_from_civil(y, m, d)
                    == shifted / 86_400 && r@ == clock_text(y, m, d, shifted % 86_400)
        }),
{
    let seconds = unix_seconds.saturating_add(8 * 60 * 60);
    let days = seconds / 86_400;
    let day_seconds = seconds % 86_400;
    let (year, month, day) = civil_date_from_days(days as i64);
    let mut out = String::new();
    push_decimal(&mut out, year as u128, 4);
    out.append("-");
    push_decimal(&mut out, month as u128, 2);
    out.append("-");
    push_decimal(&mut out, day as u128, 2);
    out.append(" ");
    push_decimal(&mut out, (day_seconds / 3_600) as u128, 2);
    out.append(":");
    push_decimal(&mut out, ((day_seconds % 3_600) / 60) as u128, 2);
    out.append(":");
    push_decimal(&mut out, (day_seconds % 60) as u128, 2);
    proof {
        assert(out@ =~= clock_text(year as int, month as int, day as int, day_seconds as int));
        assert(days_from_civil(year as int, month as int, day as int) == days);
    }
    out
}

/// `path` as a directory path, or nothing when it is blank.
pub fn non_empty_path(path: String) -> (r: Option<String>)
    ensures
        is_blank_view(path@) <==> (r is None),
        r matches Some(p) ==> p@ == path@,
{
    if is_blank(path.as_str()) {
        None
    } else {
        Some(path)
    }
}

/// The directories whose documents introduce the agent and the user.
#[derive(Debug, Clone, PartialEq, Eq)]
pub struct ContextDirectories {
    pub agents_directory: Option<String>,
    pub persona_directory: Option<String>,
}

impl Default for ContextDirectories {
    fn default() -> (r: Self)
        ensures
            r.agents_directory is None,
            r.persona_directory is None,
    {
        ContextDirectories { agents_directory: None, persona_directory: None }
    }
}

/// Immutable context captured when a session is initialized.
#[derive(Debug, Clone, PartialEq, Eq)]
pub struct SessionContext {
    pub system_prompt: String,
}

/// What identifies the state of a document file: its path, its length and
/// its modification time in nanoseconds since the Unix epoch, when known.
#[derive(Debug, Clone, PartialEq, Eq)]
pub struct FileSignature {
    pub path: String,
    pub length: u64,
    pub modified: Option<i128>,
}

pub struct FileSignatureView {
    pub path: Seq<char>,
    pub length: u64,
    pub modified: Option<i128>,
}

impl DeepView for FileSignature {
    type V = FileSignatureView;

    open spec fn deep_view(&self) -> FileSignatureView {
        FileSignatureView { path: self.path@, length: self.length, modified: self.modified }
    }
}

pub open spec fn opt_path_view(p: Option<String>) -> Option<Seq<char>> {
    match p {
        Some(s) => Some(s@),
        None => None,
    }
}

/// The documents read from a directory, with the state of its files when
/// they were read.
pub struct CachedDocuments {
    pub directory: Option<String>,
    pub signature: Vec<FileSignature>,
    pub content: String,
}

impl Default for CachedDocuments {
    fn default() -> (r: Self)
        ensures
            r.directory is None,
            r.signature@.len() == 0,
            r.content@.len() == 0,
    {
        CachedDocuments { directory: None, signature: Vec::new(), content: String::new() }
    }
}

fn same_path(a: &Option<String>, b: &Option<String>) -> (r: bool)
    ensures
        r == (opt_path_view(*a) == opt_path_view(*b)),
{
    match (a, b) {
        (Some(x), Some(y)) => crate::text::same_text(x.as_str(), y.as_str()),
        (None, None) => true,
        _ => false,
    }
}

fn same_signature(a: &Vec<FileSignature>, b: &Vec<FileSignature>) -> (r: bool)
    ensures
        r == (a.deep_view() == b.deep_view()),
{
    if a.len() != b.len() {
        proof {
            assert(a.deep_view().len() != b.deep_view().len());
        }
        return false;
    }
    let mut i: usize = 0;
    while i < a.len()
        invariant
            a@.len() == b@.len(),
            i <= a@.len(),
            forall|k: int| 0 <= k < i ==> a.deep_view()[k] == b.deep_view()[k],
        decreases a@.len() - i,
    {
        let x = &a[i];
        let y = &b[i];
        if !crate::text::same_text(x.path.as_str(), y.path.as_str()) || x.length != y.length
            || x.modified != y.modified {
            proof {
                assert(a.deep_view()[i as int] != b.deep_view()[i as int]);
            }
            return false;
        }
        i = i + 1;
    }
    proof {
        assert(a.deep_view() =~= b.deep_view());
    }
    true
}

/// What the cache answers for `directory` in the state `signature`: its
/// content when it was filled from exactly that directory in exactly that
/// state, and nothing otherwise.
pub open spec fn cached_answer(
    cached: &CachedDocuments,
    directory: Option<String>,
    signature: Seq<FileSignatureView>,
) -> Option<Seq<char>> {
    if opt_path_view(cached.directory) == opt_path_view(directory) && cached.signature.deep_view()
        == signature {
        Some(cached.content@)
    } else {
        None
    }
}

impl CachedDocuments {
    /// The cached content, when it was read from `directory` while its files
    /// were in the state `signature`.
    pub fn lookup(&self, directory: &Option<String>, signature: &Vec<FileSignature>) -> (r: Option<
        String,
    >)
        ensures
            (opt_path_view(self.directory) == opt_path_view(*directory) && self.signature.deep_view()
                == signature.deep_view()) <==> (r is Some),
            r matches Some(c) ==> c@ == self.content@,
            crate::serving::opt_text(r) == cached_answer(self, *directory, signature.deep_view()),
    {
        if same_path(&self.directory, directory) && same_signature(&self.signature, signature) {
            Some(self.content.clone())
        } else {
            None
        }
    }

    /// Remembers `content` as read from `directory` in the state `signature`.
    pub fn store(&mut self, directory: Option<String>, signature: Vec<FileSignature>, content: String)
        ensures
            final(self).directory == directory,
            final(self).signature == signature,
            final(self).content == content,
    {
        self.directory = directory;
        self.signature = signature;
        self.content = content;
    }
}

/// After the cache is filled with `content` read from `directory` in the
/// state `signature`, it answers with that content exactly for that
/// directory in that state, and with nothing for any other.
pub proof fn law_cache_answers_only_what_was_stored(
    filled: &CachedDocuments,
    directory: Option<String>,
    signature: Vec<FileSignature>,
    content: String,
    asked_directory: Option<String>,
    asked_signature: Seq<FileSignatureView>,
)
    requires
        filled.directory == directory,
        filled.signature == signature,
        filled.content == content,
    ensures
        cached_answer(filled, asked_directory, asked_signature) == (if opt_path_view(asked_directory)
            == opt_path_view(directory) && asked_signature == signature.deep_view() {
            Some(content@)
        } else {
            None
        }),
{
}

/// The document cache never changes the prompt: when the cache answers for
/// a directory in a given state of its files, and documents whose files are
/// in that state read as `fresh` (a file whose content changes also changes
/// its length or modification time), the prompt built from the cached
/// content is the one built from a fresh read, failures included.
pub proof fn law_cache_keeps_the_prompt(
    directories: ContextDirectories,
    history_summary: Seq<char>,
    current_time: Seq<char>,
    cached: &CachedDocuments,
    directory: Option<String>,
    signature: Seq<FileSignatureView>,
    fresh: Seq<char>,
    persona: Result<Seq<char>, ContextErrorView>,
)
    requires
        cached_answer(cached, directory, signature) is Some,
        cached.content@ == fresh,
    ensures
        prompt_outcome(
            directories,
            history_summary,
            current_time,
            Ok(cached_answer(cached, directory, signature)->Some_0),
            persona,
        ) == prompt_outcome(directories, history_summary, current_time, Ok(fresh), persona),
{
}

/// The cached documents of both directories.
pub struct ContextCache {
    pub agents: CachedDocuments,
    pub persona: CachedDocuments,
}

impl Default for ContextCache {
    fn default() -> (r: Self)
        ensures
            r.agents.directory is None,
            r.agents.signature@.len() == 0,
            r.agents.content@.len() == 0,
            r.persona.directory is None,
            r.persona.signature@.len() == 0,
            r.persona.content@.len() == 0,
    {
        ContextCache { agents: CachedDocuments::default(), persona: CachedDocuments::default() }
    }
}

/// Replaces the document directories supplied by the embedding application;
/// blank paths disable the corresponding documents. The cache is emptied.
pub fn configure_context_directories(
    directories: &mut ContextDirectories,
    cache: &mut ContextCache,
    agents_directory: String,
    persona_directory: String,
)
    ensures
        is_blank_view(agents_directory@) <==> final(directories).agents_directory is None,
        final(directories).agents_directory matches Some(p) ==> p@ == agents_directory@,
        is_blank_view(persona_directory@) <==> final(directories).persona_directory is None,
        final(directories).persona_directory matches Some(p) ==> p@ == persona_directory@,
        final(cache).agents.directory is None && final(cache).agents.signature@.len() == 0
            && final(cache).agents.content@.len() == 0,
        final(cache).persona.directory is None && final(cache).persona.signature@.len() == 0
            && final(cache).persona.content@.len() == 0,
{
    directories.agents_directory = non_empty_path(agents_directory);
    directories.persona_directory = non_empty_path(persona_directory);
    *cache = ContextCache::default();
}

/// Forgets the document directories and empties the cache.
pub fn clear_context_directories(directories: &mut ContextDirectories, cache: &mut ContextCache)
    ensures
        final(directories).agents_directory is None,
        final(directories).persona_directory is None,
        final(cache).agents.directory is None && final(cache).agents.signature@.len() == 0
            && final(cache).agents.content@.len() == 0,
        final(cache).persona.directory is None && final(cache).persona.signature@.len() == 0
            && final(cache).persona.content@.len() == 0,
{
    *directories = ContextDirectories::default();
    *cache = ContextCache::default();
}

pub enum ContextErrorView {
    ReadDirectory { path: Seq<char>, source: Seq<char> },
    ReadFile { path: Seq<char>, source: Seq<char> },
    InvalidUtf8 { path: Seq<char>, source: Seq<char> },
}

/// Why the context documents could not be read. `source` is the message of
/// the underlying failure.
#[derive(Debug, Clone, PartialEq, Eq)]
pub enum ContextError {
    ReadDirectory { path: String, source: String },
    ReadFile { path: String, source: String },
    InvalidUtf8 { path: String, source: String },
}

impl View for ContextError {
    type V = ContextErrorView;

    open spec fn view(&self) -> ContextErrorView {
        match self {
            ContextError::ReadDirectory { path, source } => ContextErrorView::ReadDirectory {
                path: path@,
                source: source@,
            },
            ContextError::ReadFile { path, source } => ContextErrorView::ReadFile {
                path: path@,
                source: source@,
            },
            ContextError::InvalidUtf8 { path, source } => ContextErrorView::InvalidUtf8 {
                path: path@,
                source: source@,
            },
        }
    }
}

impl ContextErrorView {
    pub open spec fn text(self) -> Seq<char> {
        match self {
            ContextErrorView::ReadDirectory { path, source } => "failed to read context directory '"@
                + path + "': "@ + source,
            ContextErrorView::ReadFile { path, source } => "failed to read context file '"@ + path
                + "': "@ + source,
            ContextErrorView::InvalidUtf8 { path, source } => "context file '"@ + path
                + "' is not UTF-8: "@ + source,
        }
    }
}

impl ContextError {
    /// The error's message, as its `Display` renders it.
    pub fn to_string(&self) -> (r: String)
        ensures
            r@ == self@.text(),
    {
        let mut out = String::new();
        match self {
            ContextError::ReadDirectory { path, source } => {
                out.append("failed to read context directory '");
                out.append(path.as_str());
                out.append("': ");
                out.append(source.as_str());
            },
            ContextError::ReadFile { path, source } => {
                out.append("failed to read context file '");
                out.append(path.as_str());
                out.append("': ");
                out.append(source.as_str());
            },
            ContextError::InvalidUtf8 { path, source } => {
                out.append("context file '");
                out.append(path.as_str());
                out.append("' is not UTF-8: ");
                out.append(source.as_str());
            },
        }
        proof {
            assert(out@ =~= self@.text());
        }
        out
    }
}


/// A read of documents, by its view.
pub open spec fn read_view(r: Result<String, ContextError>) -> Result<Seq<char>, ContextErrorView> {
    match r {
        Ok(s) => Ok(s@),
        Err(e) => Err(e@),
    }
}

/// The documents that a directory contributes: none when it is not set,
/// otherwise what reading it gave.
pub open spec fn contributed(directory: Option<String>, read: Result<Seq<char>, ContextErrorView>) -> Result<
    Seq<char>,
    ContextErrorView,
> {
    match directory {
        None => Ok(Seq::empty()),
        Some(_) => read,
    }
}

/// The system prompt for `directories`, or the first failed read: that of
/// the agent documents before that of the persona documents.
pub open spec fn prompt_outcome(
    directories: ContextDirectories,
    history_summary: Seq<char>,
    current_time: Seq<char>,
    agents: Result<Seq<char>, ContextErrorView>,
    persona: Result<Seq<char>, ContextErrorView>,
) -> Result<Seq<char>, ContextErrorView> {
    match contributed(directories.agents_directory, agents) {
        Err(e) => Err(e),
        Ok(a) => match contributed(directories.persona_directory, persona) {
            Err(e) => Err(e),
            Ok(p) => Ok(system_prompt_view(current_time, a, p, history_summary)),
        },
    }
}

/// Each directory supplies its own documents, independently of the other:
/// the agent documents come from reading `agents_directory` and are empty
/// when it is not set, the persona documents come from reading
/// `persona_directory` and are empty when it is not set, and a failed read
/// of a set directory fails the prompt, the agent documents' failure first.
pub proof fn law_each_directory_supplies_its_documents(
    directories: ContextDirectories,
    history_summary: Seq<char>,
    current_time: Seq<char>,
    agents: Result<Seq<char>, ContextErrorView>,
    persona: Result<Seq<char>, ContextErrorView>,
)
    ensures
        directories.agents_directory is Some && agents is Err ==> prompt_outcome(
            directories,
            history_summary,
            current_time,
            agents,
            persona,
        ) == agents,
        (directories.agents_directory is None || agents is Ok) ==> {
            let a = if directories.agents_directory is Some {
                agents->Ok_0
            } else {
                Seq::empty()
            };
            &&& directories.persona_directory is Some && persona is Err ==> prompt_outcome(
                directories,
                history_summary,
                current_time,
                agents,
                persona,
            ) == persona
            &&& directories.persona_directory is Some && persona is Ok ==> prompt_outcome(
                directories,
                history_summary,
                current_time,
                agents,
                persona,
            ) == Ok::<Seq<char>, ContextErrorView>(
                system_prompt_view(current_time, a, persona->Ok_0, history_summary),
            )
            &&& directories.persona_directory is None ==> prompt_outcome(
                directories,
                history_summary,
                current_time,
                agents,
                persona,
            ) == Ok::<Seq<char>, ContextErrorView>(
                system_prompt_view(current_time, a, Seq::empty(), history_summary),
            )
        },
{
}

impl ContextDirectories {
    /// The system prompt built from these directories. `agents` and
    /// `persona` are what reading the two directories gave (their documents
    /// in path order, joined by line breaks); a directory that is not set
    /// contributes no documents.
    pub fn build_system_prompt(
        &self,
        history_summary: &str,
        current_time: &str,
        agents: Result<String, ContextError>,
        persona: Result<String, ContextError>,
    ) -> (r: Result<String, ContextError>)
        ensures
            read_view(r) == prompt_outcome(
                *self,
                history_summary@,
                current_time@,
                read_view(agents),
                read_view(persona),
            ),
    {
        let agents_text = match &self.agents_directory {
            None => String::new(),
            Some(_) => match agents {
                Ok(text) => text,
                Err(e) => return Err(e),
            },
        };
        let persona_text = match &self.persona_directory {
            None => String::new(),
            Some(_) => match persona {
                Ok(text) => text,
                Err(e) => return Err(e),
            },
        };
        Ok(
            compose_system_prompt(
                current_time,
                agents_text.as_str(),
                persona_text.as_str(),
                history_summary,
            ),
        )
    }
}

/// The system prompt for the configured directories, whose documents were
/// read through the cache.
pub fn build_configured_system_prompt(
    configured: &ContextDirectories,
    history_summary: &str,
    current_time: &str,
    agents: Result<String, ContextError>,
    persona: Result<String, ContextError>,
) -> (r: Result<String, ContextError>)
    ensures
        read_view(r) == prompt_outcome(
            *configured,
            history_summary@,
            current_time@,
            read_view(agents),
            read_view(persona),
        ),
{
    configured.build_system_prompt(history_summary, current_time, agents, persona)
}

impl SessionContext {
    /// The context of a new session: the system prompt for the configured
    /// directories, or the read that failed.
    pub fn initialize(
        configured: &ContextDirectories,
        history_summary: &str,
        current_time: &str,
        agents: Result<String, ContextError>,
        persona: Result<String, ContextError>,
    ) -> (r: Result<Self, ContextError>)
        ensures
            match prompt_outcome(
                *configured,
                history_summary@,
                current_time@,
                read_view(agents),
                read_view(persona),
            ) {
                Ok(p) => r matches Ok(c) && c.system_prompt@ == p,
                Err(e) => r matches Err(x) && x@ == e,
            },
    {
        match build_configured_system_prompt(configured, history_summary, current_time, agents, persona) {
            Ok(system_prompt) => Ok(SessionContext { system_prompt }),
            Err(e) => Err(e),
        }
    }
}

} // verus!
