//! Space Windows itself holds: what each reclaim action could free, and
//! how much the system tools report as freed.
use vstd::prelude::*;
use crate::safety::{is_space, is_unicode_space};
use crate::text::{
    chars_of, contains, contains_seq, decimal, is_prefix_of, owned, push_char, push_decimal, push_str, starts_with, string_from_chars,
    trim_end_char, trim_end_char_str,
};

verus! {

/// The lowercase form of a text, as `str::to_lowercase` gives it (Unicode
/// case mapping).
pub uninterp spec fn unicode_lower(s: Seq<char>) -> Seq<char>;

/// `str::to_lowercase`: claimed that the result is [`unicode_lower`] of the
/// argument, and for an all-ASCII text the ASCII lowercase (ASCII capitals
/// map to ASCII small letters one for one, every other ASCII character to
/// itself).
#[verifier::external_body]
pub(crate) fn to_lowercase(s: &str) -> (r: String)
    ensures
        r@ == unicode_lower(s@),
        crate::text::all_ascii(s@) ==> r@ == crate::text::ascii_lower(s@),
{
    s.to_lowercase()
}

/// What a reclaim action did.
pub struct ReclaimResult {
    pub success: bool,
    pub freed_bytes: u64,
    pub requires_reboot: bool,
    pub message: String,
}

/// A reclaim action the user may take, and what it could free.
pub struct ReclaimOpportunity {
    pub id: String,
    pub label: String,
    pub description: String,
    pub current_size: u64,
    pub reclaimable_size: u64,
    pub requires_admin: bool,
    pub requires_reboot: bool,
    pub reversible: bool,
    pub risk_level: String,
}

// ---------------------------------------------------------------------------
// Lines and numbers of tool output
// ---------------------------------------------------------------------------

/// The line that starts at `i`: up to the next `\n`, one trailing `\r`
/// dropped.
pub open spec fn line_end(s: Seq<char>, i: int) -> int
    decreases s.len() - i,
{
    if i >= s.len() || s[i] == '\n' {
        i
    } else {
        line_end(s, i + 1)
    }
}

pub proof fn lemma_line_end(s: Seq<char>, i: int)
    requires
        0 <= i <= s.len(),
    ensures
        i <= line_end(s, i) <= s.len(),
        line_end(s, i) < s.len() ==> s[line_end(s, i)] == '\n',
        forall|k: int| i <= k < line_end(s, i) ==> s[k] != '\n',
    decreases s.len() - i,
{
    if i < s.len() && s[i] != '\n' {
        lemma_line_end(s, i + 1);
    }
}

pub open spec fn strip_cr(l: Seq<char>) -> Seq<char> {
    if l.len() > 0 && l.last() == '\r' {
        l.drop_last()
    } else {
        l
    }
}

/// The lines of a text from position `i` on, as `str::lines` gives them:
/// split at `\n`, a trailing `\r` dropped from each, no empty line after a
/// final `\n`.
pub open spec fn lines_from(s: Seq<char>, i: int) -> Seq<Seq<char>>
    decreases s.len() - i,
{
    if i < 0 || i >= s.len() {
        Seq::empty()
    } else {
        let e = line_end(s, i);
        proof {
            lemma_line_end(s, i);
        }
        if e >= s.len() {
            seq![strip_cr(s.subrange(i, e))]
        } else {
            seq![strip_cr(s.subrange(i, e))] + lines_from(s, e + 1)
        }
    }
}

/// The lines of a text.
pub open spec fn text_lines(s: Seq<char>) -> Seq<Seq<char>> {
    lines_from(s, 0)
}

/// The lines of a text (see [`text_lines`]).
pub fn split_lines(s: &str) -> (r: Vec<String>)
    ensures
        Seq::new(r@.len(), |k: int| r@[k]@) == text_lines(s@),
{
    let v = chars_of(s);
    let mut out: Vec<String> = Vec::new();
    let mut i: usize = 0;
    while i < v.len()
        invariant
            i <= v@.len(),
            v@ == s@,
            Seq::new(out@.len(), |k: int| out@[k]@) + lines_from(v@, i as int) == text_lines(s@),
        decreases v@.len() - i,
    {
        let mut e: usize = i;
        while e < v.len() && v[e] != '\n'
            invariant
                i <= e <= v@.len(),
                line_end(v@, i as int) == line_end(v@, e as int),
            decreases v@.len() - e,
        {
            e = e + 1;
        }
        let mut line: Vec<char> = Vec::new();
        let mut k: usize = i;
        while k < e
            invariant
                i <= k <= e <= v@.len(),
                line@ == v@.subrange(i as int, k as int),
            decreases e - k,
        {
            line.push(v[k]);
            k = k + 1;
            assert(line@ =~= v@.subrange(i as int, k as int));
        }
        if line.len() > 0 && line[line.len() - 1] == '\r' {
            let _ = line.pop();
        }
        let ghost before = Seq::new(out@.len(), |q: int| out@[q]@);
        let text = string_from_chars(line.as_slice());
        let ghost tv = text@;
        out.push(text);
        proof {
            assert(Seq::new(out@.len(), |q: int| out@[q]@) =~= before.push(tv));
            if e < v@.len() {
                assert(lines_from(v@, i as int) == seq![tv] + lines_from(v@, e + 1));
            } else {
                assert(lines_from(v@, i as int) =~= seq![tv] + lines_from(v@, e + 1));
            }
            assert(before.push(tv) + lines_from(v@, e + 1) =~= before + (seq![tv] + lines_from(v@, e + 1)));
        }
        if e >= v.len() {
            i = e;
        } else {
            i = e + 1;
        }
    }
    assert(Seq::new(out@.len(), |k: int| out@[k]@) + lines_from(v@, i as int) =~= Seq::new(out@.len(), |k: int| out@[k]@));
    out
}

pub open spec fn is_digit(c: char) -> bool {
    '0' <= c && c <= '9'
}

/// The digits of the first number of a line: from the first ASCII digit
/// on, digits kept and `.` or `,` skipped, up to the first other character.
pub open spec fn number_digits(s: Seq<char>, i: int, started: bool) -> Seq<char>
    decreases s.len() - i,
{
    if i < 0 || i >= s.len() {
        Seq::empty()
    } else if is_digit(s[i]) {
        seq![s[i]] + number_digits(s, i + 1, true)
    } else if started && (s[i] == '.' || s[i] == ',') {
        number_digits(s, i + 1, true)
    } else if started {
        Seq::empty()
    } else {
        number_digits(s, i + 1, false)
    }
}

/// The value of a string of decimal digits.
pub open spec fn digits_value(d: Seq<char>) -> nat
    decreases d.len(),
{
    if d.len() == 0 {
        0
    } else {
        digits_value(d.drop_last()) * 10 + ((d.last() as nat) - ('0' as nat)) as nat
    }
}

/// The first number of a line (see [`number_digits`]), none when there is
/// none or it does not fit in 64 bits.
pub open spec fn line_number(s: Seq<char>) -> Option<u64> {
    let d = number_digits(s, 0, false);
    if d.len() == 0 || digits_value(d) > u64::MAX {
        None
    } else {
        Some(digits_value(d) as u64)
    }
}

/// The first number of a line (see [`line_number`]).
pub fn extract_number_from_line(line: &str) -> (r: Option<u64>)
    ensures
        r == line_number(line@),
{
    let v = chars_of(line);
    let mut digits: Vec<char> = Vec::new();
    let mut started = false;
    let mut i: usize = 0;
    while i < v.len()
        invariant
            i <= v@.len(),
            v@ == line@,
            started == (digits@.len() > 0),
            forall|k: int| 0 <= k < digits@.len() ==> is_digit(#[trigger] digits@[k]),
            number_digits(v@, 0, false) == digits@ + number_digits(v@, i as int, started),
        decreases v@.len() - i,
    {
        let c = v[i];
        if '0' <= c && c <= '9' {
            let ghost before = digits@;
            digits.push(c);
            assert(digits@ + number_digits(v@, i + 1, true) =~= before + (seq![c] + number_digits(v@, i + 1, true)));
            started = true;
        } else if started && (c == '.' || c == ',') {
        } else if started {
            assert(number_digits(v@, i as int, started) == Seq::<char>::empty());
            assert(digits@ + Seq::<char>::empty() =~= digits@);
            assert(number_digits(v@, 0, false) == digits@);
            return parse_digits(&digits);
        }
        i = i + 1;
    }
    assert(digits@ + Seq::<char>::empty() =~= digits@);
    parse_digits(&digits)
}

fn parse_digits(d: &Vec<char>) -> (r: Option<u64>)
    requires
        forall|k: int| 0 <= k < d@.len() ==> is_digit(#[trigger] d@[k]),
    ensures
        r == (if d@.len() == 0 || digits_value(d@) > u64::MAX { None } else { Some(digits_value(d@) as u64) }),
{
    if d.len() == 0 {
        return None;
    }
    let mut value: u64 = 0;
    let mut k: usize = 0;
    while k < d.len()
        invariant
            k <= d@.len(),
            forall|q: int| 0 <= q < d@.len() ==> is_digit(#[trigger] d@[q]),
            value == digits_value(d@.take(k as int)),
        decreases d@.len() - k,
    {
        let digit = (d[k] as u32 - '0' as u32) as u64;
        proof {
            assert(d@.take(k + 1).drop_last() =~= d@.take(k as int));
            assert(d@.take(k + 1).last() == d@[k as int]);
        }
        if value > (u64::MAX - digit) / 10 {
            proof {
                lemma_digits_value_prefix(d@, k + 1);
                assert(digits_value(d@.take(k + 1)) == value * 10 + digit) by (nonlinear_arith)
                    requires digits_value(d@.take(k + 1)) == digits_value(d@.take(k as int)) * 10 + digit,
                        value == digits_value(d@.take(k as int));
                assert(value * 10 + digit > u64::MAX) by (nonlinear_arith)
                    requires value > (u64::MAX - digit) / 10, digit <= 9;
            }
            return None;
        }
        value = value * 10 + digit;
        k = k + 1;
    }
    assert(d@.take(d@.len() as int) =~= d@);
    Some(value)
}

proof fn lemma_digits_value_prefix(d: Seq<char>, k: int)
    requires
        0 <= k <= d.len(),
        forall|q: int| 0 <= q < d.len() ==> is_digit(#[trigger] d[q]),
    ensures
        digits_value(d.take(k)) <= digits_value(d),
    decreases d.len() - k,
{
    if k < d.len() {
        lemma_digits_value_prefix(d, k + 1);
        assert(d.take(k + 1).drop_last() =~= d.take(k));
        assert(digits_value(d.take(k + 1)) >= digits_value(d.take(k))) by (nonlinear_arith)
            requires digits_value(d.take(k + 1)) == digits_value(d.take(k)) * 10 + ((d[k] as nat) - ('0' as nat)) as nat;
    } else {
        assert(d.take(k) =~= d);
    }
}

// ---------------------------------------------------------------------------
// Freed space as the tools report it
// ---------------------------------------------------------------------------

/// Which report is read.
#[derive(Debug, Clone, Copy, PartialEq, Eq, Structural)]
pub enum ToolReport {
    /// DISM's component cleanup: a line naming KB, MB or GB.
    Dism,
    /// vssadmin's deletion: a line about shadow copy storage or freed space.
    VssDelete,
    /// vssadmin's storage listing: the line of used shadow copy storage.
    VssUsage,
}

/// Whether a lowercased line is the one the report gives its figure on.
pub open spec fn report_line(kind: ToolReport, lower: Seq<char>) -> bool {
    match kind {
        ToolReport::Dism => contains_seq(lower, "mb"@) || contains_seq(lower, "gb"@) || contains_seq(lower, "kb"@),
        ToolReport::VssDelete => contains_seq(lower, "shadow copy storage"@) || contains_seq(lower, "freed"@),
        ToolReport::VssUsage => contains_seq(lower, "used shadow copy storage"@),
    }
}

/// The bytes a figure stands for, by the unit its lowercased line names
/// (GB, then MB, then KB where the report reads KB); products wrap at
/// 2^64.
pub open spec fn figure_bytes(kind: ToolReport, lower: Seq<char>, n: u64) -> u64 {
    if contains_seq(lower, "gb"@) {
        ((n * 1073741824) % 0x1_0000_0000_0000_0000) as u64
    } else if contains_seq(lower, "mb"@) {
        ((n * 1048576) % 0x1_0000_0000_0000_0000) as u64
    } else if kind != ToolReport::VssDelete && contains_seq(lower, "kb"@) {
        ((n * 1024) % 0x1_0000_0000_0000_0000) as u64
    } else {
        n
    }
}

/// The figure of the first report line, from line `k` on, that has a
/// number; zero when none has.
pub open spec fn report_bytes(kind: ToolReport, lines: Seq<Seq<char>>, k: int) -> u64
    decreases lines.len() - k,
{
    if k < 0 || k >= lines.len() {
        0
    } else if report_line(kind, unicode_lower(lines[k])) && line_number(lines[k]) is Some {
        figure_bytes(kind, unicode_lower(lines[k]), line_number(lines[k])->0)
    } else {
        report_bytes(kind, lines, k + 1)
    }
}

fn figure_bytes_of(kind: ToolReport, lower: &str, n: u64) -> (r: u64)
    ensures
        r == figure_bytes(kind, lower@, n),
{
    if contains(lower, "gb") {
        n.wrapping_mul(1073741824)
    } else if contains(lower, "mb") {
        n.wrapping_mul(1048576)
    } else if kind != ToolReport::VssDelete && contains(lower, "kb") {
        n.wrapping_mul(1024)
    } else {
        n
    }
}

fn is_report_line(kind: ToolReport, lower: &str) -> (r: bool)
    ensures
        r == report_line(kind, lower@),
{
    match kind {
        ToolReport::Dism => contains(lower, "mb") || contains(lower, "gb") || contains(lower, "kb"),
        ToolReport::VssDelete => contains(lower, "shadow copy storage") || contains(lower, "freed"),
        ToolReport::VssUsage => contains(lower, "used shadow copy storage"),
    }
}

/// The bytes a tool's output reports (see [`report_bytes`]).
pub fn reported_bytes(kind: ToolReport, output: &str) -> (r: u64)
    ensures
        r == report_bytes(kind, text_lines(output@), 0),
{
    let lines = split_lines(output);
    let ghost lv = Seq::new(lines@.len(), |k: int| lines@[k]@);
    let mut k: usize = 0;
    while k < lines.len()
        invariant
            k <= lines@.len(),
            lv == text_lines(output@),
            lv == Seq::new(lines@.len(), |q: int| lines@[q]@),
            report_bytes(kind, lv, 0) == report_bytes(kind, lv, k as int),
        decreases lines@.len() - k,
    {
        let line = lines[k].as_str();
        assert(line@ == lv[k as int]);
        let lower = to_lowercase(line);
        if is_report_line(kind, lower.as_str()) {
            match extract_number_from_line(line) {
                Some(n) => {
                    return figure_bytes_of(kind, lower.as_str(), n);
                },
                None => {},
            }
        }
        k = k + 1;
    }
    0
}

/// The bytes DISM's component cleanup reports as freed.
pub fn parse_dism_freed_bytes(output: &str) -> (r: u64)
    ensures
        r == report_bytes(ToolReport::Dism, text_lines(output@), 0),
{
    reported_bytes(ToolReport::Dism, output)
}

/// The bytes vssadmin's deletion reports as freed.
pub fn parse_vssadmin_freed(output: &str) -> (r: u64)
    ensures
        r == report_bytes(ToolReport::VssDelete, text_lines(output@), 0),
{
    reported_bytes(ToolReport::VssDelete, output)
}

/// The bytes vssadmin's storage listing reports as used.
pub fn parse_vss_usage(output: &str) -> (r: u64)
    ensures
        r == report_bytes(ToolReport::VssUsage, text_lines(output@), 0),
{
    reported_bytes(ToolReport::VssUsage, output)
}

// ---------------------------------------------------------------------------
// The reclaim actions
// ---------------------------------------------------------------------------

fn opportunity(
    id: &str,
    label: &str,
    description: &str,
    current_size: u64,
    reclaimable_size: u64,
    requires_reboot: bool,
    reversible: bool,
    risk_level: &str,
) -> (r: ReclaimOpportunity)
    ensures
        r.id@ == id@,
        r.label@ == label@,
        r.description@ == description@,
        r.current_size == current_size,
        r.reclaimable_size == reclaimable_size,
        r.requires_admin,
        r.requires_reboot == requires_reboot,
        r.reversible == reversible,
        r.risk_level@ == risk_level@,
{
    ReclaimOpportunity {
        id: owned(id),
        label: owned(label),
        description: owned(description),
        current_size,
        reclaimable_size,
        requires_admin: true,
        requires_reboot,
        reversible,
        risk_level: owned(risk_level),
    }
}

/// The reclaim actions with their sizes: Windows Update's downloads,
/// Delivery Optimization's cache, the hibernation file (reclaimable only
/// when it exists), restore points, and moving the page file (which needs
/// a restart). All need administrator rights.
pub fn reclaim_opportunities(
    update_download_size: u64,
    delivery_cache_size: u64,
    hiberfil_size: u64,
    hiberfil_exists: bool,
    shadow_storage_size: u64,
    pagefile_size: u64,
) -> (r: Vec<ReclaimOpportunity>)
    ensures
        r@.len() == 5,
        r@[0].id@ == "windows_update"@ && r@[0].current_size == update_download_size && r@[0].reclaimable_size
            == update_download_size && !r@[0].reversible && !r@[0].requires_reboot,
        r@[1].id@ == "delivery_optimization"@ && r@[1].current_size == delivery_cache_size && r@[1].reclaimable_size
            == delivery_cache_size && !r@[1].reversible && !r@[1].requires_reboot,
        r@[2].id@ == "hibernation"@ && r@[2].current_size == hiberfil_size && r@[2].reclaimable_size == (if hiberfil_exists {
            hiberfil_size
        } else {
            0
        }) && r@[2].reversible && !r@[2].requires_reboot,
        r@[3].id@ == "restore_points"@ && r@[3].current_size == shadow_storage_size && r@[3].reclaimable_size
            == shadow_storage_size && !r@[3].reversible && !r@[3].requires_reboot,
        r@[4].id@ == "pagefile"@ && r@[4].current_size == pagefile_size && r@[4].reclaimable_size == pagefile_size
            && r@[4].reversible && r@[4].requires_reboot,
        forall|i: int| 0 <= i < 5 ==> (#[trigger] r@[i]).requires_admin,
{
    let mut ops: Vec<ReclaimOpportunity> = Vec::new();
    ops.push(opportunity(
        "windows_update",
        "Windows Update 清理",
        "清理 Windows Update 组件存储和下载缓存",
        update_download_size,
        update_download_size,
        false,
        false,
        "caution",
    ));
    ops.push(opportunity(
        "delivery_optimization",
        "Delivery Optimization 缓存",
        "清理 Windows 更新分发优化缓存",
        delivery_cache_size,
        delivery_cache_size,
        false,
        false,
        "safe",
    ));
    ops.push(opportunity(
        "hibernation",
        "休眠文件",
        "禁用休眠以删除 hiberfil.sys",
        hiberfil_size,
        if hiberfil_exists { hiberfil_size } else { 0 },
        false,
        true,
        "safe",
    ));
    ops.push(opportunity(
        "restore_points",
        "系统还原点",
        "删除旧的系统还原点",
        shadow_storage_size,
        shadow_storage_size,
        false,
        false,
        "caution",
    ));
    ops.push(opportunity("pagefile", "页面文件迁移", "将页面文件迁移到其他磁盘", pagefile_size, pagefile_size, true, true, "caution"));
    ops
}

/// The report of emptying a directory: what it held before less what it
/// holds after.
pub fn emptied_directory_result(size_before: u64, size_after: u64, message: &str) -> (r: ReclaimResult)
    ensures
        r.success,
        r.freed_bytes == if size_before >= size_after { size_before - size_after } else { 0 },
        !r.requires_reboot,
        r.message@ == message@,
{
    ReclaimResult {
        success: true,
        freed_bytes: size_before.saturating_sub(size_after),
        requires_reboot: false,
        message: owned(message),
    }
}

/// The report of turning hibernation off: the hibernation file's size is
/// freed.
pub fn hibernation_disabled_result(size: u64) -> (r: ReclaimResult)
    ensures
        r.success,
        r.freed_bytes == size,
        !r.requires_reboot,
        r.message@ == "休眠已禁用，释放 "@ + decimal(size as nat) + " 字节"@,
{
    let mut message = owned("休眠已禁用，释放 ");
    push_decimal(&mut message, size);
    push_str(&mut message, " 字节");
    ReclaimResult { success: true, freed_bytes: size, requires_reboot: false, message }
}

/// The report of DISM's component cleanup, with or without resetting the
/// base.
pub fn component_cleanup_result(force: bool, freed: u64) -> (r: ReclaimResult)
    ensures
        r.success,
        r.freed_bytes == freed,
        !r.requires_reboot,
        r.message@ == if force {
            "Windows Update 组件已清理（含 ResetBase，不可回退）"@
        } else {
            "Windows Update 组件已清理"@
        },
{
    ReclaimResult {
        success: true,
        freed_bytes: freed,
        requires_reboot: false,
        message: if force {
            owned("Windows Update 组件已清理（含 ResetBase，不可回退）")
        } else {
            owned("Windows Update 组件已清理")
        },
    }
}

// ---------------------------------------------------------------------------
// Moving the page file
// ---------------------------------------------------------------------------

/// The end of the word starting at `i`: the next whitespace, or the end.
pub open spec fn word_end(s: Seq<char>, i: int) -> int
    decreases s.len() - i,
{
    if i < 0 || i >= s.len() || is_unicode_space(s[i]) {
        i
    } else {
        word_end(s, i + 1)
    }
}

pub proof fn lemma_word_end(s: Seq<char>, i: int)
    requires
        0 <= i <= s.len(),
    ensures
        i <= word_end(s, i) <= s.len(),
    decreases s.len() - i,
{
    if i < s.len() && !is_unicode_space(s[i]) {
        lemma_word_end(s, i + 1);
    }
}

/// The whitespace-separated words of a text from position `i` on, as
/// `str::split_whitespace` gives them.
pub open spec fn words_from(s: Seq<char>, i: int) -> Seq<Seq<char>>
    decreases s.len() - i,
{
    if i < 0 || i >= s.len() {
        Seq::empty()
    } else if is_unicode_space(s[i]) {
        words_from(s, i + 1)
    } else {
        let e = word_end(s, i + 1);
        proof {
            lemma_word_end(s, i + 1);
        }
        seq![s.subrange(i, e)] + words_from(s, e)
    }
}

/// The words of a text (see [`words_from`]).
pub fn split_words(text: &str) -> (r: Vec<String>)
    ensures
        Seq::new(r@.len(), |k: int| r@[k]@) == words_from(text@, 0),
{
    let v = chars_of(text);
    let mut out: Vec<String> = Vec::new();
    let mut i: usize = 0;
    while i < v.len()
        invariant
            i <= v@.len(),
            v@ == text@,
            words_from(text@, 0) == Seq::new(out@.len(), |k: int| out@[k]@) + words_from(text@, i as int),
        decreases v@.len() - i,
    {
        if is_space(v[i]) {
            i = i + 1;
        } else {
            let mut e: usize = i + 1;
            proof {
                lemma_word_end(v@, i + 1);
            }
            while e < v.len() && !is_space(v[e])
                invariant
                    i < e <= v@.len(),
                    v@ == text@,
                    word_end(v@, e as int) == word_end(v@, i + 1),
                decreases v@.len() - e,
            {
                e = e + 1;
            }
            let mut word: Vec<char> = Vec::new();
            let mut k: usize = i;
            while k < e
                invariant
                    i <= k <= e <= v@.len(),
                    word@ == v@.subrange(i as int, k as int),
                decreases e - k,
            {
                word.push(v[k]);
                k = k + 1;
                assert(word@ =~= v@.subrange(i as int, k as int));
            }
            let ghost before = Seq::new(out@.len(), |k: int| out@[k]@);
            out.push(string_from_chars(word.as_slice()));
            assert(Seq::new(out@.len(), |k: int| out@[k]@) =~= before.push(v@.subrange(i as int, e as int)));
            assert(words_from(text@, i as int) == seq![v@.subrange(i as int, e as int)] + words_from(text@, e as int));
            assert(before + words_from(text@, i as int) =~= before.push(v@.subrange(i as int, e as int)) + words_from(
                text@,
                e as int,
            ));
            i = e;
        }
    }
    assert(words_from(text@, i as int) =~= Seq::<Seq<char>>::empty());
    assert(words_from(text@, 0) =~= Seq::new(out@.len(), |k: int| out@[k]@));
    out
}

/// Where the page file goes: the drive (its trailing `:` dropped), then
/// `:\pagefile.sys`.
pub open spec fn pagefile_target(target_drive: Seq<char>) -> Seq<char> {
    trim_end_char(target_drive, ':') + ":\\pagefile.sys"@
}

/// The page-file entry that sits on drive C: (its lowercase form starts
/// with `c:`).
pub open spec fn on_drive_c(entry: Seq<char>) -> bool {
    is_prefix_of("c:"@, unicode_lower(entry))
}

/// An entry of drive C: moved to the target, keeping its two size fields
/// when it has them, else with sizes `0 0` (system managed).
pub open spec fn moved_entry(entry: Seq<char>, target: Seq<char>) -> Seq<char> {
    let parts = words_from(entry, 0);
    if parts.len() >= 3 {
        target + " "@ + parts[1] + " "@ + parts[2]
    } else {
        target + " 0 0"@
    }
}

/// The page-file entries after the move: each entry of drive C: moved (see
/// [`moved_entry`]), the others kept; a system-managed entry on the target
/// added when none was on C:.
pub open spec fn relocated_paging(entries: Seq<Seq<char>>, target: Seq<char>) -> Seq<Seq<char>> {
    let moved = Seq::new(entries.len(), |k: int| if on_drive_c(entries[k]) { moved_entry(entries[k], target) } else { entries[k] });
    if exists|k: int| 0 <= k < entries.len() && on_drive_c(#[trigger] entries[k]) {
        moved
    } else {
        moved.push(target + " 0 0"@)
    }
}

/// The page-file entries after moving the page file of drive C: to
/// `target_drive` (see [`relocated_paging`]).
pub fn relocate_paging_entries(paging_files: &Vec<String>, target_drive: &str) -> (r: Vec<String>)
    ensures
        Seq::new(r@.len(), |k: int| r@[k]@) == relocated_paging(
            Seq::new(paging_files@.len(), |k: int| paging_files@[k]@),
            pagefile_target(target_drive@),
        ),
{
    let ghost es = Seq::new(paging_files@.len(), |k: int| paging_files@[k]@);
    let ghost tg = pagefile_target(target_drive@);
    let mut target = trim_end_char_str(target_drive, ':');
    push_str(&mut target, ":\\pagefile.sys");
    assert(target@ == tg);
    let mut out: Vec<String> = Vec::new();
    let mut found_c = false;
    let mut i: usize = 0;
    while i < paging_files.len()
        invariant
            i <= paging_files@.len(),
            es == Seq::new(paging_files@.len(), |k: int| paging_files@[k]@),
            target@ == tg,
            out@.len() == i,
            forall|k: int| 0 <= k < i ==> #[trigger] out@[k]@ == if on_drive_c(es[k]) { moved_entry(es[k], tg) } else { es[k] },
            found_c == exists|k: int| 0 <= k < i && on_drive_c(#[trigger] es[k]),
        decreases paging_files@.len() - i,
    {
        let entry = paging_files[i].as_str();
        let lower = to_lowercase(entry);
        if starts_with(lower.as_str(), "c:") {
            proof {
                reveal_strlit("c:");
            }
            assert(on_drive_c(es[i as int]));
            found_c = true;
            let parts = split_words(entry);
            let mut line = target.clone();
            if parts.len() >= 3 {
                push_str(&mut line, " ");
                push_str(&mut line, parts[1].as_str());
                push_str(&mut line, " ");
                push_str(&mut line, parts[2].as_str());
            } else {
                push_str(&mut line, " 0 0");
            }
            out.push(line);
        } else {
            proof {
                reveal_strlit("c:");
            }
            assert(!on_drive_c(es[i as int]));
            out.push(paging_files[i].clone());
        }
        i = i + 1;
    }
    let ghost moved = Seq::new(es.len(), |k: int| if on_drive_c(es[k]) { moved_entry(es[k], tg) } else { es[k] });
    assert(Seq::new(out@.len(), |k: int| out@[k]@) =~= moved);
    if !found_c {
        let mut line = target.clone();
        push_str(&mut line, " 0 0");
        out.push(line);
        assert(Seq::new(out@.len(), |k: int| out@[k]@) =~= moved.push(tg + " 0 0"@));
    }
    out
}

/// The report of scheduling the page file's move: the current page file's
/// size is freed from C: after a restart.
pub fn pagefile_relocated_result(target: &str, current_size: u64) -> (r: ReclaimResult)
    ensures
        r.success,
        r.freed_bytes == current_size,
        r.requires_reboot,
        r.message@ == "页面文件将在重启后迁移到 "@ + target@ + "（当前大小 "@ + decimal(current_size as nat) + " 字节）"@,
{
    let mut message = owned("页面文件将在重启后迁移到 ");
    push_str(&mut message, target);
    push_str(&mut message, "（当前大小 ");
    push_decimal(&mut message, current_size);
    push_str(&mut message, " 字节）");
    ReclaimResult { success: true, freed_bytes: current_size, requires_reboot: true, message }
}

} // verus!
