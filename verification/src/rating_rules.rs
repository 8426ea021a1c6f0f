//! Rating rules: which photo groups, by star rating, are kept, copied,
//! moved or marked for cleanup, and the checks a rule set must pass.

use vstd::prelude::*;
use crate::text::{chars_of, concat, concat3, is_blank, is_blank_str, trim_chars, trimmed};

verus! {

/// A condition on a star rating (0 means unrated).
#[derive(Debug, Clone, Copy, PartialEq, Eq, Structural)]
pub enum RatingCondition {
    Unrated,
    Equal { rating: u8 },
    AtLeast { rating: u8 },
    AtMost { rating: u8 },
    Between { minimum: u8, maximum: u8 },
}

impl RatingCondition {
    /// The condition holds of a rating of 0 to 5 stars.
    pub open spec fn holds(&self, rating: u8) -> bool {
        rating <= 5 && match *self {
            RatingCondition::Unrated => rating == 0,
            RatingCondition::Equal { rating: expected } => rating == expected,
            RatingCondition::AtLeast { rating: minimum } => rating >= minimum,
            RatingCondition::AtMost { rating: maximum } => rating <= maximum,
            RatingCondition::Between { minimum, maximum } => minimum <= rating <= maximum,
        }
    }

    pub fn matches(&self, rating: u8) -> (r: bool)
        ensures
            r == self.holds(rating),
    {
        if rating > 5 {
            return false;
        }
        match self {
            RatingCondition::Unrated => rating == 0,
            RatingCondition::Equal { rating: expected } => rating == *expected,
            RatingCondition::AtLeast { rating: minimum } => rating >= *minimum,
            RatingCondition::AtMost { rating: maximum } => rating <= *maximum,
            RatingCondition::Between { minimum, maximum } => *minimum <= rating && rating <= *maximum,
        }
    }
}

/// The kinds of file a rule can act on.
#[derive(Debug, Clone, Copy, PartialEq, Eq, Structural)]
pub enum RuleMemberKind {
    Jpeg,
    Raw,
    Xmp,
}

/// What a rule does with the photo groups it matches.
#[derive(Debug, Clone, Copy, PartialEq, Eq, Structural)]
pub enum RuleAction {
    Keep,
    Copy,
    Move,
    Cleanup,
}

/// A rating rule as the user defines it.
#[derive(Debug)]
pub struct RatingRule {
    pub id: String,
    pub name: String,
    pub enabled: bool,
    pub condition: RatingCondition,
    pub member_scope: Vec<RuleMemberKind>,
    pub action: RuleAction,
    pub destination: Option<String>,
    pub preserve_relative_path: bool,
}

pub open spec fn opt_text(o: Option<String>) -> Option<Seq<char>> {
    match o {
        Some(x) => Some(x@),
        None => None,
    }
}

/// Two rules with the same content.
pub open spec fn same_rule(a: RatingRule, b: RatingRule) -> bool {
    &&& a.id@ == b.id@
    &&& a.name@ == b.name@
    &&& a.enabled == b.enabled
    &&& a.condition == b.condition
    &&& a.member_scope@ == b.member_scope@
    &&& a.action == b.action
    &&& opt_text(a.destination) == opt_text(b.destination)
    &&& a.preserve_relative_path == b.preserve_relative_path
}

/// A copy of a rule.
pub fn copy_rule(rule: &RatingRule) -> (r: RatingRule)
    ensures
        same_rule(r, *rule),
{
    let mut scope: Vec<RuleMemberKind> = Vec::new();
    let mut i: usize = 0;
    while i < rule.member_scope.len()
        invariant
            i <= rule.member_scope@.len(),
            scope@ == rule.member_scope@.subrange(0, i as int),
        decreases rule.member_scope@.len() - i,
    {
        scope.push(rule.member_scope[i]);
        i = i + 1;
    }
    assert(scope@ =~= rule.member_scope@);
    RatingRule {
        id: rule.id.clone(),
        name: rule.name.clone(),
        enabled: rule.enabled,
        condition: rule.condition,
        member_scope: scope,
        action: rule.action,
        destination: match &rule.destination {
            Some(d) => Some(d.clone()),
            None => None,
        },
        preserve_relative_path: rule.preserve_relative_path,
    }
}

/// Most rules a rule set may hold.
pub const MAX_RULES: usize = 100;

/// Longest rule name, in characters.
pub const MAX_RULE_NAME_CHARS: usize = 80;

/// Why a star rating is out of range.
pub fn validate_rating(rating: u8) -> (r: Result<(), String>)
    ensures
        r is Ok <==> rating <= 5,
        r matches Err(e) ==> e@ == "评分必须在 0 到 5 星之间"@,
{
    if rating > 5 {
        return Err("评分必须在 0 到 5 星之间".to_owned());
    }
    Ok(())
}

/// Why a condition is invalid, if it is.
pub open spec fn condition_error(c: RatingCondition) -> Option<Seq<char>> {
    let range = "评分必须在 0 到 5 星之间"@;
    match c {
        RatingCondition::Unrated => None,
        RatingCondition::Equal { rating } => if rating > 5 { Some(range) } else { None },
        RatingCondition::AtLeast { rating } => if rating > 5 { Some(range) } else { None },
        RatingCondition::AtMost { rating } => if rating > 5 { Some(range) } else { None },
        RatingCondition::Between { minimum, maximum } => if minimum > 5 || maximum > 5 {
            Some(range)
        } else if minimum > maximum {
            Some("最低评分不能高于最高评分"@)
        } else {
            None
        },
    }
}

pub fn validate_condition(condition: &RatingCondition) -> (r: Result<(), String>)
    ensures
        match condition_error(*condition) {
            Some(e) => r matches Err(m) && m@ == e,
            None => r is Ok,
        },
{
    match condition {
        RatingCondition::Unrated => Ok(()),
        RatingCondition::Equal { rating } => validate_rating(*rating),
        RatingCondition::AtLeast { rating } => validate_rating(*rating),
        RatingCondition::AtMost { rating } => validate_rating(*rating),
        RatingCondition::Between { minimum, maximum } => {
            validate_rating(*minimum)?;
            validate_rating(*maximum)?;
            if *minimum > *maximum {
                return Err("最低评分不能高于最高评分".to_owned());
            }
            Ok(())
        },
    }
}

/// The destination of a rule with surrounding white space removed ("" when unset).
pub open spec fn trimmed_destination(d: Option<String>) -> Seq<char> {
    match d {
        Some(x) => trimmed(x@),
        None => seq![],
    }
}

/// Why a single rule is invalid, if it is.
pub open spec fn rule_error(rule: RatingRule) -> Option<Seq<char>> {
    let destination = trimmed_destination(rule.destination);
    if is_blank(rule.id@) {
        Some("规则 ID 不能为空"@)
    } else if is_blank(rule.name@) {
        Some("规则名称不能为空"@)
    } else if rule.name@.len() > 80 {
        Some("规则名称不能超过 80 个字符"@)
    } else if condition_error(rule.condition) is Some {
        condition_error(rule.condition)
    } else if rule.member_scope@.len() == 0 {
        Some("至少选择一种处理格式"@)
    } else if !rule.member_scope@.no_duplicates() {
        Some("处理格式不能重复"@)
    } else if rule.action == RuleAction::Copy && destination.len() == 0 {
        Some("复制规则必须选择目标目录"@)
    } else if rule.action == RuleAction::Move && destination.len() == 0 {
        Some("移动规则必须选择目标目录"@)
    } else if (rule.action == RuleAction::Keep || rule.action == RuleAction::Cleanup)
        && destination.len() > 0 {
        Some("保留和待清理规则不能设置目标目录"@)
    } else {
        None
    }
}

/// Whether a list of member kinds names no kind twice.
fn kinds_distinct(kinds: &Vec<RuleMemberKind>) -> (r: bool)
    ensures
        r == kinds@.no_duplicates(),
{
    let mut i: usize = 0;
    while i < kinds.len()
        invariant
            i <= kinds@.len(),
            forall|a: int, b: int| 0 <= a < b < kinds@.len() && a < i ==> kinds@[a] != kinds@[b],
        decreases kinds@.len() - i,
    {
        let mut j: usize = i + 1;
        while j < kinds.len()
            invariant
                i < j <= kinds@.len(),
                forall|a: int, b: int| 0 <= a < b < kinds@.len() && a < i ==> kinds@[a] != kinds@[b],
                forall|b: int| i < b < j ==> kinds@[i as int] != kinds@[b],
            decreases kinds@.len() - j,
        {
            if kinds[i] == kinds[j] {
                return false;
            }
            j = j + 1;
        }
        i = i + 1;
    }
    true
}

pub fn validate_rule(rule: &RatingRule) -> (r: Result<(), String>)
    ensures
        match rule_error(*rule) {
            Some(e) => r matches Err(m) && m@ == e,
            None => r is Ok,
        },
{
    if is_blank_str(rule.id.as_str()) {
        return Err("规则 ID 不能为空".to_owned());
    }
    if is_blank_str(rule.name.as_str()) {
        return Err("规则名称不能为空".to_owned());
    }
    let name = chars_of(rule.name.as_str());
    if name.len() > MAX_RULE_NAME_CHARS {
        return Err("规则名称不能超过 80 个字符".to_owned());
    }
    validate_condition(&rule.condition)?;
    if rule.member_scope.len() == 0 {
        return Err("至少选择一种处理格式".to_owned());
    }
    if !kinds_distinct(&rule.member_scope) {
        return Err("处理格式不能重复".to_owned());
    }
    let destination_len = match &rule.destination {
        Some(d) => trim_chars(&chars_of(d.as_str())).len(),
        None => 0,
    };
    match rule.action {
        RuleAction::Copy => {
            if destination_len == 0 {
                return Err("复制规则必须选择目标目录".to_owned());
            }
        },
        RuleAction::Move => {
            if destination_len == 0 {
                return Err("移动规则必须选择目标目录".to_owned());
            }
        },
        RuleAction::Keep | RuleAction::Cleanup => {
            if destination_len > 0 {
                return Err("保留和待清理规则不能设置目标目录".to_owned());
            }
        },
    }
    Ok(())
}

/// The trimmed ids of a rule list.
pub open spec fn trimmed_ids(rules: Seq<RatingRule>) -> Seq<Seq<char>> {
    rules.map_values(|r: RatingRule| trimmed(r.id@))
}

/// Position of the first rule whose trimmed id repeats an earlier one.
pub open spec fn repeats_earlier(rules: Seq<RatingRule>, i: int) -> bool {
    exists|j: int| 0 <= j < i && trimmed(rules[j].id@) == trimmed(rules[i].id@)
}

/// The error of the first rule, in order, that fails `rule_error`.
pub open spec fn first_rule_error(rules: Seq<RatingRule>) -> Option<Seq<char>>
    decreases rules.len(),
{
    if rules.len() == 0 {
        None
    } else {
        let rest = first_rule_error(rules.drop_last());
        if rest is Some {
            rest
        } else {
            match rule_error(rules.last()) {
                Some(e) => Some("规则“"@ + trimmed(rules.last().name@) + "”："@ + e),
                None => None,
            }
        }
    }
}

/// Why a rule set is invalid, if it is.
pub open spec fn rule_set_error(rules: Seq<RatingRule>) -> Option<Seq<char>> {
    if rules.len() > 100 {
        Some("最多只能创建 100 条规则"@)
    } else if exists|i: int| 0 <= i < rules.len() && repeats_earlier(rules, i) {
        let i = choose|i: int|
            0 <= i < rules.len() && repeats_earlier(rules, i) && forall|k: int|
                0 <= k < i ==> !repeats_earlier(rules, k);
        Some("规则 ID 重复："@ + rules[i].id@)
    } else {
        first_rule_error(rules)
    }
}

proof fn lemma_first_rule_error_prefix(rules: Seq<RatingRule>, n: int)
    requires
        0 <= n <= rules.len(),
        first_rule_error(rules.subrange(0, n)) is Some,
    ensures
        first_rule_error(rules) == first_rule_error(rules.subrange(0, n)),
    decreases rules.len(),
{
    if n < rules.len() {
        assert(rules.drop_last().subrange(0, n) =~= rules.subrange(0, n));
        lemma_first_rule_error_prefix(rules.drop_last(), n);
    } else {
        assert(rules.subrange(0, n) =~= rules);
    }
}

/// Checks a rule set: at most 100 rules, distinct ids (after trimming), and
/// every rule valid. Gives a copy of the rules.
pub fn validate_rule_set(rules: &Vec<RatingRule>) -> (r: Result<Vec<RatingRule>, String>)
    ensures
        match rule_set_error(rules@) {
            Some(e) => r matches Err(m) && m@ == e,
            None => r matches Ok(v) && v@.len() == rules@.len() && forall|i: int|
                0 <= i < rules@.len() ==> same_rule(#[trigger] v@[i], rules@[i]),
        },
{
    if rules.len() > MAX_RULES {
        return Err("最多只能创建 100 条规则".to_owned());
    }
    let mut ids: Vec<Vec<char>> = Vec::new();
    let mut i: usize = 0;
    while i < rules.len()
        invariant
            i <= rules@.len(),
            rules@.len() <= 100,
            ids@.len() == i,
            forall|k: int| 0 <= k < i ==> (#[trigger] ids@[k])@ == trimmed(rules@[k].id@),
            forall|k: int| 0 <= k < i ==> !repeats_earlier(rules@, k),
        decreases rules@.len() - i,
    {
        let id = trim_chars(&chars_of(rules[i].id.as_str()));
        let mut j: usize = 0;
        while j < ids.len()
            invariant
                j <= ids@.len(),
                ids@.len() == i,
                i < rules@.len(),
                rules@.len() <= 100,
                id@ == trimmed(rules@[i as int].id@),
                forall|k: int| 0 <= k < i ==> (#[trigger] ids@[k])@ == trimmed(rules@[k].id@),
                forall|k: int| 0 <= k < i ==> !repeats_earlier(rules@, k),
                forall|k: int| 0 <= k < j ==> trimmed(rules@[k].id@) != id@,
            decreases ids@.len() - j,
        {
            if crate::text::chars_eq(&ids[j], &id) {
                proof {
                    assert(repeats_earlier(rules@, i as int));
                    let c = choose|c: int|
                        0 <= c < rules@.len() && repeats_earlier(rules@, c) && forall|k: int|
                            0 <= k < c ==> !repeats_earlier(rules@, k);
                    assert(c == i) by {
                        if c < i {
                        } else if c > i {
                            assert(!repeats_earlier(rules@, i as int));
                        }
                    }
                }
                return Err(concat("规则 ID 重复：", rules[i].id.as_str()));
            }
            j = j + 1;
        }
        ids.push(id);
        i = i + 1;
    }
    assert(!(exists|k: int| 0 <= k < rules@.len() && repeats_earlier(rules@, k)));
    let mut out: Vec<RatingRule> = Vec::new();
    let mut n: usize = 0;
    while n < rules.len()
        invariant
            n <= rules@.len(),
            rules@.len() <= 100,
            !(exists|k: int| 0 <= k < rules@.len() && repeats_earlier(rules@, k)),
            first_rule_error(rules@.subrange(0, n as int)) is None,
            out@.len() == n,
            forall|k: int| 0 <= k < n ==> same_rule(#[trigger] out@[k], rules@[k]),
        decreases rules@.len() - n,
    {
        assert(rules@.subrange(0, n + 1).drop_last() =~= rules@.subrange(0, n as int));
        let rule = &rules[n];
        match validate_rule(rule) {
            Ok(()) => {},
            Err(e) => {
                let name = string_of_trimmed(rule.name.as_str());
                proof {
                    lemma_first_rule_error_prefix(rules@, n + 1);
                }
                let mut m = concat3("规则“", name.as_str(), "”：");
                m.append(e.as_str());
                return Err(m);
            },
        }
        out.push(copy_rule(rule));
        n = n + 1;
    }
    assert(rules@.subrange(0, rules@.len() as int) =~= rules@);
    Ok(out)
}

/// `s.trim()` as a `String`.
pub fn string_of_trimmed(s: &str) -> (r: String)
    ensures
        r@ == trimmed(s@),
{
    let t = trim_chars(&chars_of(s));
    crate::text::string_of(t.as_slice())
}

/// A rule set that passes validation names every rule by a different id,
/// surrounding white space aside.
pub proof fn validated_rule_ids_are_distinct(rules: Seq<RatingRule>, i: int, j: int)
    requires
        rule_set_error(rules) is None,
        0 <= i < j < rules.len(),
    ensures
        trimmed(rules[i].id@) != trimmed(rules[j].id@),
{
    if trimmed(rules[i].id@) == trimmed(rules[j].id@) {
        assert(repeats_earlier(rules, j));
    }
}

/// What each rule condition means for a rating of 0 to 5 stars: unrated is
/// 0, `Equal` is that rating, `AtLeast` and `AtMost` include their bound,
/// `Between` includes both ends; no condition holds above 5 stars.
pub proof fn rating_conditions_mean_their_bounds(r: u8, m: u8, lo: u8, hi: u8)
    ensures
        r <= 5 ==> (RatingCondition::Unrated.holds(r) <==> r == 0),
        r <= 5 ==> ((RatingCondition::Equal { rating: m }).holds(r) <==> r == m),
        r <= 5 ==> ((RatingCondition::AtLeast { rating: m }).holds(r) <==> r >= m),
        r <= 5 ==> ((RatingCondition::AtMost { rating: m }).holds(r) <==> r <= m),
        r <= 5 ==> ((RatingCondition::Between { minimum: lo, maximum: hi }).holds(r) <==> lo <= r && r <= hi),
        r > 5 ==> !RatingCondition::Unrated.holds(r) && !(RatingCondition::Equal { rating: m }).holds(r)
            && !(RatingCondition::AtLeast { rating: m }).holds(r) && !(RatingCondition::AtMost { rating: m }).holds(r)
            && !(RatingCondition::Between { minimum: lo, maximum: hi }).holds(r),
{
}

} // verus!
