//! Moving automation rules between libraries: the checks a rule file, the
//! names in it and the tags and groups it refers to must pass before its
//! rules are imported, and the names imported rules take.
use vstd::prelude::*;

use crate::batches::{decimal_digits, digit_char, unsigned_digits};
use crate::rules::AutomationRuleError;
use crate::query::{sorted_difference, strictly_sorted};
use crate::text::{
    append_chars, chars_eq, chars_of, contains_chars, lowercase, lowercase_chars, string_chars, string_of,
    string_views, trim, trim_chars, views,
};

verus! {

/// The longest rule, tag or group name a rule file may carry, in characters.
pub const MAX_IMPORTED_RULE_NAME_CHARS: usize = 120;
/// How many distinct tags and groups one rule file may refer to in all.
pub const MAX_IMPORTED_DEPENDENCIES: usize = 1000;
/// How many rules one rule file may hold.
pub const MAX_IMPORTED_RULES: usize = 200;
/// The rule file version this library reads and writes.
pub const AUTOMATION_RULE_FILE_VERSION: u32 = 1;

/// A control character: general category Cc, that is U+0000 to U+001F and
/// U+007F to U+009F (`char::is_control`).
pub open spec fn is_control(c: char) -> bool {
    c <= '\u{1f}' || ('\u{7f}' <= c && c <= '\u{9f}')
}

/// Whether `s` holds a control character.
pub open spec fn has_control(s: Seq<char>) -> bool {
    exists|i: int| 0 <= i < s.len() && is_control(#[trigger] s[i])
}

fn has_control_chars(v: &Vec<char>) -> (r: bool)
    ensures
        r == has_control(v@),
{
    let mut i: usize = 0;
    while i < v.len()
        invariant
            i <= v.len(),
            forall|k: int| 0 <= k < i ==> !is_control(#[trigger] v@[k]),
        decreases v.len() - i,
    {
        let c = v[i];
        if c <= '\u{1f}' || ('\u{7f}' <= c && c <= '\u{9f}') {
            assert(is_control(v@[i as int]));
            return true;
        }
        i = i + 1;
    }
    false
}

/// The error of a rule file that cannot be imported, with its message.
fn rule_file_error(message: &Vec<char>) -> (r: AutomationRuleError)
    ensures
        r matches AutomationRuleError::InvalidRuleFile(m) && m@ == message@,
{
    AutomationRuleError::InvalidRuleFile(string_of(message))
}

/// Checks a tag or group name a rule file refers to (`kind` says which, for
/// the message): it must have between 1 and 120 characters and no control
/// character.
pub fn validate_dependency_name(name: &str, kind: &str) -> (r: Result<(), AutomationRuleError>)
    ensures
        (name@.len() == 0 || name@.len() > MAX_IMPORTED_RULE_NAME_CHARS) ==> (r matches Err(
            AutomationRuleError::InvalidRuleFile(m),
        ) && m@ == kind@ + " 名称为空或超过 "@ + decimal_digits(MAX_IMPORTED_RULE_NAME_CHARS as nat)
            + " 个字符"@),
        !(name@.len() == 0 || name@.len() > MAX_IMPORTED_RULE_NAME_CHARS) && has_control(name@) ==> (r matches Err(
            AutomationRuleError::InvalidRuleFile(m),
        ) && m@ == kind@ + " 名称包含不可见控制字符"@),
        !(name@.len() == 0 || name@.len() > MAX_IMPORTED_RULE_NAME_CHARS) && !has_control(name@) ==> r is Ok,
{
    let v = chars_of(name);
    if v.len() == 0 || v.len() > MAX_IMPORTED_RULE_NAME_CHARS {
        let mut m = chars_of(kind);
        append_chars(&mut m, &chars_of(" 名称为空或超过 "));
        append_chars(&mut m, &unsigned_digits(MAX_IMPORTED_RULE_NAME_CHARS as u64));
        append_chars(&mut m, &chars_of(" 个字符"));
        return Err(rule_file_error(&m));
    }
    if has_control_chars(&v) {
        let mut m = chars_of(kind);
        append_chars(&mut m, &chars_of(" 名称包含不可见控制字符"));
        return Err(rule_file_error(&m));
    }
    Ok(())
}

/// The format a rule file names itself with.
pub fn rule_file_format() -> (r: &'static str)
    ensures
        r@ == "smart-spreadsheet.automation-rules"@,
{
    "smart-spreadsheet.automation-rules"
}

/// Checks what a rule file says of itself before its rules are read: its
/// format must be this library's, its version the one supported, and it
/// must hold between 1 and 200 rules. The first check that fails gives the
/// error.
pub fn validate_rule_file_header(format: &str, version: u32, rule_count: usize) -> (r: Result<
    (),
    AutomationRuleError,
>)
    ensures
        format@ != "smart-spreadsheet.automation-rules"@ ==> (r matches Err(AutomationRuleError::InvalidRuleFile(m))
            && m@ == "这不是智能表格导出的规则文件"@),
        format@ == "smart-spreadsheet.automation-rules"@ && version != AUTOMATION_RULE_FILE_VERSION ==> (r matches Err(
            AutomationRuleError::InvalidRuleFile(m),
        ) && m@ == "文件版本为 "@ + decimal_digits(version as nat) + "，当前仅支持版本 "@ + decimal_digits(
            AUTOMATION_RULE_FILE_VERSION as nat,
        )),
        format@ == "smart-spreadsheet.automation-rules"@ && version == AUTOMATION_RULE_FILE_VERSION && rule_count == 0
            ==> (r matches Err(AutomationRuleError::InvalidRuleFile(m)) && m@ == "文件中没有规则"@),
        format@ == "smart-spreadsheet.automation-rules"@ && version == AUTOMATION_RULE_FILE_VERSION && rule_count
            > MAX_IMPORTED_RULES ==> (r matches Err(AutomationRuleError::InvalidRuleFile(m)) && m@ == "文件包含 "@
            + decimal_digits(rule_count as nat) + " 条规则，超过单次最多 "@ + decimal_digits(MAX_IMPORTED_RULES as nat)
            + " 条的限制"@),
        format@ == "smart-spreadsheet.automation-rules"@ && version == AUTOMATION_RULE_FILE_VERSION && 0 < rule_count
            <= MAX_IMPORTED_RULES ==> r is Ok,
{
    let expected = chars_of(rule_file_format());
    if !chars_eq(&chars_of(format), &expected) {
        return Err(rule_file_error(&chars_of("这不是智能表格导出的规则文件")));
    }
    if version != AUTOMATION_RULE_FILE_VERSION {
        let mut m = chars_of("文件版本为 ");
        append_chars(&mut m, &unsigned_digits(version as u64));
        append_chars(&mut m, &chars_of("，当前仅支持版本 "));
        append_chars(&mut m, &unsigned_digits(AUTOMATION_RULE_FILE_VERSION as u64));
        return Err(rule_file_error(&m));
    }
    if rule_count == 0 {
        return Err(rule_file_error(&chars_of("文件中没有规则")));
    }
    if rule_count > MAX_IMPORTED_RULES {
        let mut m = chars_of("文件包含 ");
        append_chars(&mut m, &unsigned_digits(rule_count as u64));
        append_chars(&mut m, &chars_of(" 条规则，超过单次最多 "));
        append_chars(&mut m, &unsigned_digits(MAX_IMPORTED_RULES as u64));
        append_chars(&mut m, &chars_of(" 条的限制"));
        return Err(rule_file_error(&m));
    }
    Ok(())
}

/// The name a rule of a rule file is imported under, before any clash with
/// a local rule is resolved: its name trimmed, which must have at most 120
/// characters and no control character. `index` is the rule's place in the
/// file, counted from 0; messages count from 1.
pub fn imported_rule_name(index: usize, raw: &str) -> (r: Result<String, AutomationRuleError>)
    requires
        index < usize::MAX,
    ensures
        trim(raw@).len() > MAX_IMPORTED_RULE_NAME_CHARS ==> (r matches Err(AutomationRuleError::InvalidRuleFile(m))
            && m@ == "第 "@ + decimal_digits((index + 1) as nat) + " 条规则名称超过 "@ + decimal_digits(
            MAX_IMPORTED_RULE_NAME_CHARS as nat,
        ) + " 个字符"@),
        trim(raw@).len() <= MAX_IMPORTED_RULE_NAME_CHARS && has_control(trim(raw@)) ==> (r matches Err(
            AutomationRuleError::InvalidRuleFile(m),
        ) && m@ == "第 "@ + decimal_digits((index + 1) as nat) + " 条规则名称包含不可见控制字符"@),
        trim(raw@).len() <= MAX_IMPORTED_RULE_NAME_CHARS && !has_control(trim(raw@)) ==> (r matches Ok(s) && s@
            == trim(raw@)),
{
    let name = trim_chars(&chars_of(raw));
    if name.len() > MAX_IMPORTED_RULE_NAME_CHARS {
        let mut m = chars_of("第 ");
        append_chars(&mut m, &unsigned_digits(index as u64 + 1));
        append_chars(&mut m, &chars_of(" 条规则名称超过 "));
        append_chars(&mut m, &unsigned_digits(MAX_IMPORTED_RULE_NAME_CHARS as u64));
        append_chars(&mut m, &chars_of(" 个字符"));
        return Err(rule_file_error(&m));
    }
    if has_control_chars(&name) {
        let mut m = chars_of("第 ");
        append_chars(&mut m, &unsigned_digits(index as u64 + 1));
        append_chars(&mut m, &chars_of(" 条规则名称包含不可见控制字符"));
        return Err(rule_file_error(&m));
    }
    Ok(string_of(&name))
}

/// Checks how many distinct tags and groups the rules of a file refer to:
/// at most 1000 in all.
pub fn check_dependency_total(tag_count: usize, group_count: usize) -> (r: Result<(), AutomationRuleError>)
    ensures
        tag_count + group_count > MAX_IMPORTED_DEPENDENCIES ==> (r matches Err(AutomationRuleError::InvalidRuleFile(m))
            && m@ == "规则引用的 Tag 与分组合计超过 "@ + decimal_digits(MAX_IMPORTED_DEPENDENCIES as nat) + " 个"@),
        tag_count + group_count <= MAX_IMPORTED_DEPENDENCIES ==> r is Ok,
{
    if tag_count > MAX_IMPORTED_DEPENDENCIES || group_count > MAX_IMPORTED_DEPENDENCIES - tag_count {
        let mut m = chars_of("规则引用的 Tag 与分组合计超过 ");
        append_chars(&mut m, &unsigned_digits(MAX_IMPORTED_DEPENDENCIES as u64));
        append_chars(&mut m, &chars_of(" 个"));
        return Err(rule_file_error(&m));
    }
    Ok(())
}

/// The suffix the `number`-th renaming of an imported rule adds to its
/// name: `（导入）` the first time, `（导入 n）` after that.
pub open spec fn import_suffix(number: nat) -> Seq<char> {
    if number == 1 {
        "（导入）"@
    } else {
        "（导入 "@ + decimal_digits(number) + "）"@
    }
}

/// The `number`-th name tried for an imported rule whose name `base` is
/// taken: as much of `base` as leaves room for the suffix within 120
/// characters, then the suffix.
pub open spec fn import_candidate(base: Seq<char>, number: nat) -> Seq<char> {
    let suffix = import_suffix(number);
    let available: int = if suffix.len() < MAX_IMPORTED_RULE_NAME_CHARS {
        MAX_IMPORTED_RULE_NAME_CHARS - suffix.len()
    } else {
        0
    };
    let keep: int = if base.len() < available {
        base.len() as int
    } else {
        available
    };
    base.take(keep) + suffix
}

/// The `number`-th name tried for an imported rule named `base` whose name
/// clashes with a local rule (see `import_candidate`).
pub fn imported_name_candidate(base: &str, number: u32) -> (r: String)
    ensures
        r@ == import_candidate(base@, number as nat),
{
    let suffix = if number == 1 {
        chars_of("（导入）")
    } else {
        let mut s = chars_of("（导入 ");
        append_chars(&mut s, &unsigned_digits(number as u64));
        append_chars(&mut s, &chars_of("）"));
        s
    };
    assert(suffix@ == import_suffix(number as nat));
    let available: usize = if suffix.len() < MAX_IMPORTED_RULE_NAME_CHARS {
        MAX_IMPORTED_RULE_NAME_CHARS - suffix.len()
    } else {
        0
    };
    let chars = chars_of(base);
    let keep: usize = if chars.len() < available {
        chars.len()
    } else {
        available
    };
    let mut out: Vec<char> = Vec::new();
    let mut i: usize = 0;
    while i < keep
        invariant
            i <= keep <= chars.len(),
            out@ == chars@.take(i as int),
        decreases keep - i,
    {
        out.push(chars[i]);
        i = i + 1;
        assert(out@ =~= chars@.take(i as int));
    }
    append_chars(&mut out, &suffix);
    assert(out@ =~= import_candidate(base@, number as nat));
    string_of(&out)
}

/// Ten to the power `k`.
spec fn ten_pow(k: nat) -> nat
    decreases k,
{
    if k == 0 {
        1
    } else {
        10 * ten_pow((k - 1) as nat)
    }
}

/// A number below `10^k` has at most `k` decimal digits.
proof fn lemma_digits_below_ten_pow(n: nat, k: nat)
    requires
        k >= 1,
        n < ten_pow(k),
    ensures
        decimal_digits(n).len() <= k,
    decreases k,
{
    if n >= 10 {
        if k == 1 {
            assert(ten_pow(1) == 10) by {
                reveal_with_fuel(ten_pow, 2);
            }
        } else {
            assert(n / 10 < ten_pow((k - 1) as nat));
            lemma_digits_below_ten_pow(n / 10, (k - 1) as nat);
        }
    }
}

/// Renaming an imported rule keeps its name acceptable: the new name stays
/// within the 120-character limit whatever the rule's name and the
/// renaming's number, and has a control character only if the rule's name
/// had one.
pub proof fn lemma_import_candidate_acceptable(base: Seq<char>, number: u32)
    ensures
        import_candidate(base, number as nat).len() <= MAX_IMPORTED_RULE_NAME_CHARS,
        !has_control(base) ==> !has_control(import_candidate(base, number as nat)),
{
    reveal_strlit("（导入）");
    reveal_strlit("（导入 ");
    reveal_strlit("）");
    assert(ten_pow(10) == 10000000000) by {
        reveal_with_fuel(ten_pow, 11);
    }
    lemma_digits_below_ten_pow(number as nat, 10);
    let suffix = import_suffix(number as nat);
    assert(suffix.len() <= 15);
    lemma_digits_are_digits(number as nat);
    if !has_control(base) {
        let c = import_candidate(base, number as nat);
        let keep = c.len() - suffix.len();
        assert forall|i: int| 0 <= i < c.len() implies !is_control(#[trigger] c[i]) by {
            if i < keep {
                assert(c[i] == base[i]);
            } else {
                assert(c[i] == suffix[i - keep]);
                if number as nat != 1 {
                    let d = decimal_digits(number as nat);
                    let j = i - keep;
                    if 4 <= j < 4 + d.len() {
                        assert(suffix[j] == d[j - 4]);
                    }
                }
            }
        }
    }
}

/// Every character of a decimal numeral is a digit.
proof fn lemma_digits_are_digits(n: nat)
    ensures
        forall|i: int| 0 <= i < decimal_digits(n).len() ==> '0' <= #[trigger] decimal_digits(n)[i] <= '9',
    decreases n,
{
    let last = digit_char(n % 10);
    assert((last as int) == 48 + n % 10);
    if n >= 10 {
        lemma_digits_are_digits(n / 10);
        assert(decimal_digits(n) == decimal_digits(n / 10).push(last));
    } else {
        assert(decimal_digits(n) == seq![last]);
    }
}

} // verus!

verus! {

/// Whether a rule name is taken: its lowercase form is among the lowercase
/// names in `used`.
pub open spec fn name_taken(used: Seq<Seq<char>>, name: Seq<char>) -> bool {
    used.contains(lowercase(name))
}

/// The `n`-th renaming of `base` is the first whose name is free: it is
/// free and every earlier renaming is taken.
pub open spec fn first_free_candidate(used: Seq<Seq<char>>, base: Seq<char>, n: int) -> bool {
    &&& 1 <= n <= u32::MAX
    &&& !name_taken(used, import_candidate(base, n as nat))
    &&& forall|m: int| 1 <= m < n ==> #[trigger] name_taken(used, import_candidate(base, m as nat))
}

/// The name an imported rule called `base` takes, given the lowercase
/// names already in use: `base` itself while it is free, else the first
/// free renaming (`（导入）`, `（导入 2）`, ...), with whether it was
/// renamed; the lowercase form of the name taken joins `used`. Renamings are
/// numbered by `u32`; `None`, with `used` unchanged, when every one of them
/// is taken.
pub fn unique_imported_rule_name(base: &str, used: &mut Vec<String>) -> (r: Option<(String, bool)>)
    ensures
        match r {
            Some((name, renamed)) => {
                &&& !name_taken(string_views(old(used)@), name@)
                &&& string_views(final(used)@) == string_views(old(used)@).push(lowercase(name@))
                &&& renamed == name_taken(string_views(old(used)@), base@)
                &&& renamed == (name@ != base@)
                &&& !renamed ==> name@ == base@
                &&& renamed ==> exists|n: int|
                    #[trigger] first_free_candidate(string_views(old(used)@), base@, n) && name@
                        == import_candidate(base@, n as nat)
            },
            None => {
                &&& name_taken(string_views(old(used)@), base@)
                &&& forall|n: int|
                    1 <= n <= u32::MAX ==> #[trigger] name_taken(
                        string_views(old(used)@),
                        import_candidate(base@, n as nat),
                    )
                &&& final(used)@ == old(used)@
            },
        },
{
    let ghost before = string_views(used@);
    let taken = string_chars(used);
    let base_chars = chars_of(base);
    let lower = lowercase_chars(&base_chars);
    if !contains_chars(&taken, &lower) {
        used.push(string_of(&lower));
        assert(string_views(used@) =~= before.push(lowercase(base@)));
        return Some((string_of(&base_chars), false));
    }
    let mut number: u32 = 1;
    loop
        invariant
            1 <= number,
            views(taken@) == before,
            string_views(used@) == before,
            before == string_views(old(used)@),
            used@ == old(used)@,
            name_taken(before, base@),
            forall|m: int| 1 <= m < number ==> #[trigger] name_taken(before, import_candidate(base@, m as nat)),
        decreases u32::MAX - number,
    {
        let candidate = imported_name_candidate(base, number);
        let lower = lowercase_chars(&chars_of(candidate.as_str()));
        if !contains_chars(&taken, &lower) {
            used.push(string_of(&lower));
            assert(string_views(used@) =~= before.push(lowercase(candidate@)));
            assert(first_free_candidate(before, base@, number as int));
            return Some((candidate, true));
        }
        if number == u32::MAX {
            assert forall|n: int| 1 <= n <= u32::MAX implies #[trigger] name_taken(
                before,
                import_candidate(base@, n as nat),
            ) by {
                if n < number {
                }
            }
            return None;
        }
        number = number + 1;
    }
}

/// The tags or groups that imported rules refer to and that the library
/// lacks: in code-point order, each once.
pub fn missing_names(referenced: &Vec<String>, existing: &Vec<String>) -> (r: Vec<String>)
    ensures
        strictly_sorted(string_views(r@)),
        forall|t: Seq<char>| #[trigger] string_views(r@).contains(t) <==> (string_views(referenced@).contains(t)
            && !string_views(existing@).contains(t)),
{
    sorted_difference(referenced, existing)
}

} // verus!
