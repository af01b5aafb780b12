//! The edit classifier: decides from a pair of text snippets whether a
//! proposed whole-string replacement is safe enough to approve without
//! manual review.
//!
//! Two rules, in order, first match wins: the edit only touches whitespace
//! (both sides are character-for-character equal once every whitespace
//! character is removed), or the edit replaces, inserts or deletes an
//! import statement. Anything else is deferred to the normal approval flow.

use vstd::prelude::*;
use vstd::string::StrSliceExecFns;
use vstd::string::StringExecFns;
use crate::text::{is_space, char_is_space, is_blank, str_is_blank, str_eq, has_suffix,
    str_has_suffix};

verus! {

/// `s` with every whitespace character removed.
pub open spec fn strip_spaces(s: Seq<char>) -> Seq<char> {
    s.filter(|c: char| !is_space(c))
}

/// The pattern "optional leading whitespace, the keyword `import`, then at
/// least one whitespace character" matches at position `k` of `s`.
pub open spec fn import_at(s: Seq<char>, k: int) -> bool {
    &&& 0 <= k
    &&& k + 7 <= s.len()
    &&& forall|j: int| 0 <= j < k ==> is_space(s[j])
    &&& s[k] == 'i'
    &&& s[k + 1] == 'm'
    &&& s[k + 2] == 'p'
    &&& s[k + 3] == 'o'
    &&& s[k + 4] == 'r'
    &&& s[k + 5] == 't'
    &&& is_space(s[k + 6])
}

/// `s` begins (after optional whitespace) with an import statement.
pub open spec fn is_import_line(s: Seq<char>) -> bool {
    exists|k: int| import_at(s, k)
}

/// The edit replaces one import line by another, inserts an import line
/// (old side blank), or deletes one (new side blank).
pub open spec fn is_import_edit(a: Seq<char>, b: Seq<char>) -> bool {
    ||| (is_import_line(a) && is_import_line(b))
    ||| (is_blank(a) && is_import_line(b))
    ||| (is_import_line(a) && is_blank(b))
}

/// The classifier's approval condition: formatting-only, or an
/// import-statement change.
pub open spec fn edit_is_safe(a: Seq<char>, b: Seq<char>) -> bool {
    strip_spaces(a) == strip_spaces(b) || is_import_edit(a, b)
}

/// The reason text attached to every approval.
pub open spec fn approval_reason() -> Seq<char> {
    "Auto-approved: Safe edit detected"@
}

/// The classifier's output: approve with a reason, or defer to the normal
/// approval flow.
pub enum Verdict {
    Approve { reason: String },
    Defer,
}

/// Collects the non-whitespace characters of `s`, in order.
fn strip_chars(s: &str) -> (r: Vec<char>)
    ensures
        r@ == strip_spaces(s@),
{
    let n = s.unicode_len();
    let mut out: Vec<char> = Vec::new();
    let mut i: usize = 0;
    while i < n
        invariant
            i <= n,
            n == s@.len(),
            out@ == strip_spaces(s@.take(i as int)),
        decreases n - i,
    {
        let c = s.get_char(i);
        proof {
            let t1 = s@.take(i + 1);
            assert(t1.drop_last() =~= s@.take(i as int));
            assert(t1.last() == s@[i as int]);
            reveal_with_fuel(Seq::filter, 2);
            assert(strip_spaces(t1) == if !is_space(t1.last()) {
                strip_spaces(t1.drop_last()).push(t1.last())
            } else {
                strip_spaces(t1.drop_last())
            });
        }
        if !char_is_space(c) {
            out.push(c);
        }
        i = i + 1;
    }
    proof {
        assert(s@.take(n as int) =~= s@);
    }
    out
}

/// Compares two character vectors for equality.
fn chars_eq(a: &Vec<char>, b: &Vec<char>) -> (r: bool)
    ensures
        r == (a@ == b@),
{
    let n = a.len();
    if n != b.len() {
        return false;
    }
    let mut i: usize = 0;
    while i < n
        invariant
            i <= n,
            n == a@.len(),
            n == b@.len(),
            forall|j: int| 0 <= j < i ==> a@[j] == b@[j],
        decreases n - i,
    {
        if a[i] != b[i] {
            return false;
        }
        i = i + 1;
    }
    proof {
        assert(a@ =~= b@);
    }
    true
}

/// The formatting-only rule: the two texts are identical once every
/// whitespace character is stripped from both.
pub fn is_formatting_only_change(old_string: &str, new_string: &str) -> (r: bool)
    ensures
        r == (strip_spaces(old_string@) == strip_spaces(new_string@)),
{
    let old_normalized = strip_chars(old_string);
    let new_normalized = strip_chars(new_string);
    chars_eq(&old_normalized, &new_normalized)
}

/// Decides whether `s` matches the import pattern: optional leading
/// whitespace, the keyword `import`, then at least one whitespace character.
pub fn matches_import_prefix(s: &str) -> (r: bool)
    ensures
        r == is_import_line(s@),
{
    let n = s.unicode_len();
    let mut k: usize = 0;
    while k < n && char_is_space(s.get_char(k))
        invariant
            k <= n,
            n == s@.len(),
            forall|j: int| 0 <= j < k ==> is_space(s@[j]),
        decreases n - k,
    {
        k = k + 1;
    }
    if n - k < 7 {
        proof {
            if is_import_line(s@) {
                let k2 = choose|k2: int| import_at(s@, k2);
                assert(!is_space('i'));
                if k2 < k {
                    assert(is_space(s@[k2]));
                } else if k2 > k {
                    assert(is_space(s@[k as int]));
                    assert(k < n);
                }
                assert(false);
            }
        }
        return false;
    }
    let r = s.get_char(k) == 'i' && s.get_char(k + 1) == 'm' && s.get_char(k + 2) == 'p'
        && s.get_char(k + 3) == 'o' && s.get_char(k + 4) == 'r' && s.get_char(k + 5) == 't'
        && char_is_space(s.get_char(k + 6));
    proof {
        if r {
            assert(import_at(s@, k as int));
        } else if is_import_line(s@) {
            let k2 = choose|k2: int| import_at(s@, k2);
            assert(!is_space('i'));
            if k2 < k {
                assert(is_space(s@[k2]));
            } else if k2 > k {
                assert(is_space(s@[k as int]));
            }
            assert(k2 == k);
            assert(false);
        }
    }
    r
}

/// The import rule: both sides are import lines, or an import line is
/// inserted over a blank old side, or deleted leaving a blank new side.
pub fn is_import_statement_change(old_string: &str, new_string: &str) -> (r: bool)
    ensures
        r == is_import_edit(old_string@, new_string@),
{
    let old_is_import = matches_import_prefix(old_string);
    let new_is_import = matches_import_prefix(new_string);
    if old_is_import && new_is_import {
        return true;
    }
    if str_is_blank(old_string) && new_is_import {
        return true;
    }
    if old_is_import && str_is_blank(new_string) {
        return true;
    }
    false
}

/// An edit is auto-approved when it is formatting-only or an
/// import-statement change.
pub fn should_auto_approve(old_string: &str, new_string: &str) -> (r: bool)
    ensures
        r == edit_is_safe(old_string@, new_string@),
{
    if is_formatting_only_change(old_string, new_string) {
        return true;
    }
    if is_import_statement_change(old_string, new_string) {
        return true;
    }
    false
}

/// Classifies an edit: `Approve` with the fixed reason exactly when the
/// edit is safe, `Defer` otherwise.
pub fn classify(old_text: &str, new_text: &str) -> (v: Verdict)
    ensures
        v is Approve <==> edit_is_safe(old_text@, new_text@),
        v matches Verdict::Approve { reason } ==> reason@ == approval_reason(),
{
    if should_auto_approve(old_text, new_text) {
        Verdict::Approve { reason: String::from_str("Auto-approved: Safe edit detected") }
    } else {
        Verdict::Defer
    }
}

/// Identical before and after texts are always classified safe: stripping
/// whitespace from the same text twice gives the same sequence.
pub proof fn lemma_identical_text_is_safe(s: Seq<char>)
    ensures
        edit_is_safe(s, s),
{
}

/// Texts that differ only in whitespace — their non-whitespace characters
/// agree position for position — are always classified safe.
pub proof fn lemma_whitespace_only_difference_is_safe(a: Seq<char>, b: Seq<char>)
    requires
        strip_spaces(a) == strip_spaces(b),
    ensures
        edit_is_safe(a, b),
{
}

/// The two recognized source-file suffixes.
pub open spec fn is_recognized_path(p: Seq<char>) -> bool {
    has_suffix(p, ".ts"@) || has_suffix(p, ".tsx"@)
}

/// Decides whether `path` ends in one of the two recognized suffixes.
pub fn is_typescript_file(path: &str) -> (r: bool)
    ensures
        r == is_recognized_path(path@),
{
    str_has_suffix(path, ".ts") || str_has_suffix(path, ".tsx")
}

/// The edit description of an inbound request: target path and the two
/// sides of the replacement, either of which may be absent.
pub struct ToolInput {
    pub file_path: String,
    pub old_string: Option<String>,
    pub new_string: Option<String>,
}

/// The outbound decision document: `decision` and `reason` both present on
/// approval, both absent on deferral.
pub struct HookOutput {
    pub decision: Option<String>,
    pub reason: Option<String>,
}

/// An absent text normalizes to empty before it reaches the classifier.
pub open spec fn opt_text(o: Option<String>) -> Seq<char> {
    match o {
        Option::Some(s) => s@,
        Option::None => Seq::empty(),
    }
}

/// The output approves: `decision` is `"approve"` and `reason` carries the
/// fixed approval reason.
pub open spec fn output_approves(r: HookOutput) -> bool {
    &&& r.decision matches Some(d) && d@ == "approve"@
    &&& r.reason matches Some(m) && m@ == approval_reason()
}

/// The output defers: both fields are absent.
pub open spec fn output_defers(r: HookOutput) -> bool {
    r.decision is None && r.reason is None
}

/// Classifies the edit of a request, defaulting absent texts to empty, and
/// maps the verdict to the decision document.
pub fn analyze_edit(tool_input: &ToolInput) -> (r: HookOutput)
    ensures
        edit_is_safe(opt_text(tool_input.old_string), opt_text(tool_input.new_string))
            ==> output_approves(r),
        !edit_is_safe(opt_text(tool_input.old_string), opt_text(tool_input.new_string))
            ==> output_defers(r),
{
    let old_string: &str = match &tool_input.old_string {
        Some(s) => s.as_str(),
        None => "",
    };
    let new_string: &str = match &tool_input.new_string {
        Some(s) => s.as_str(),
        None => "",
    };
    proof {
        reveal_strlit("");
        assert(""@ =~= Seq::<char>::empty());
    }
    if should_auto_approve(old_string, new_string) {
        HookOutput {
            decision: Some(String::from_str("approve")),
            reason: Some(String::from_str("Auto-approved: Safe edit detected")),
        }
    } else {
        HookOutput { decision: None, reason: None }
    }
}

/// The filter in front of the classifier: only a whole-string-replace edit
/// on a file with a recognized suffix is classified; every other request
/// gets a deferring output.
pub fn evaluate_request(tool_name: &str, tool_input: &ToolInput) -> (r: HookOutput)
    ensures
        !(tool_name@ == "Edit"@ && is_recognized_path(tool_input.file_path@))
            ==> output_defers(r),
        tool_name@ == "Edit"@ && is_recognized_path(tool_input.file_path@) ==> (
        edit_is_safe(opt_text(tool_input.old_string), opt_text(tool_input.new_string))
            ==> output_approves(r)),
        tool_name@ == "Edit"@ && is_recognized_path(tool_input.file_path@) ==> (
        !edit_is_safe(opt_text(tool_input.old_string), opt_text(tool_input.new_string))
            ==> output_defers(r)),
{
    if !str_eq(tool_name, "Edit") {
        return HookOutput { decision: None, reason: None };
    }
    if !is_typescript_file(tool_input.file_path.as_str()) {
        return HookOutput { decision: None, reason: None };
    }
    analyze_edit(tool_input)
}

} // verus!
