use framepair::rating_rules::{
    RatingCondition, RatingRule, RuleAction, RuleMemberKind, validate_rule, validate_rule_set,
};

fn rule(id: &str, name: &str, action: RuleAction, destination: Option<&str>) -> RatingRule {
    RatingRule {
        id: id.to_string(),
        name: name.to_string(),
        enabled: true,
        condition: RatingCondition::AtLeast { rating: 4 },
        member_scope: vec![RuleMemberKind::Jpeg, RuleMemberKind::Raw],
        action,
        destination: destination.map(str::to_string),
        preserve_relative_path: true,
    }
}

#[test]
fn conditions_only_hold_for_ratings_up_to_five() {
    assert!(RatingCondition::Unrated.matches(0));
    assert!(!RatingCondition::Unrated.matches(1));
    assert!(RatingCondition::Equal { rating: 3 }.matches(3));
    assert!(RatingCondition::AtLeast { rating: 4 }.matches(5));
    assert!(!RatingCondition::AtLeast { rating: 4 }.matches(6));
    assert!(RatingCondition::AtMost { rating: 2 }.matches(0));
    assert!(RatingCondition::Between { minimum: 2, maximum: 4 }.matches(4));
    assert!(!RatingCondition::Between { minimum: 2, maximum: 4 }.matches(5));
}

#[test]
fn rules_need_destinations_exactly_when_they_send_files() {
    assert_eq!(
        validate_rule(&rule("a", "复制", RuleAction::Copy, None)).unwrap_err(),
        "复制规则必须选择目标目录"
    );
    assert_eq!(
        validate_rule(&rule("a", "移动", RuleAction::Move, Some("   "))).unwrap_err(),
        "移动规则必须选择目标目录"
    );
    assert_eq!(
        validate_rule(&rule("a", "保留", RuleAction::Keep, Some("/x"))).unwrap_err(),
        "保留和待清理规则不能设置目标目录"
    );
    assert!(validate_rule(&rule("a", "清理", RuleAction::Cleanup, None)).is_ok());
}

#[test]
fn rule_checks_come_in_order() {
    assert_eq!(validate_rule(&rule(" ", "x", RuleAction::Keep, None)).unwrap_err(), "规则 ID 不能为空");
    assert_eq!(validate_rule(&rule("a", "  ", RuleAction::Keep, None)).unwrap_err(), "规则名称不能为空");
    let long = "名".repeat(81);
    assert_eq!(
        validate_rule(&rule("a", &long, RuleAction::Keep, None)).unwrap_err(),
        "规则名称不能超过 80 个字符"
    );
    let mut bad = rule("a", "x", RuleAction::Keep, None);
    bad.condition = RatingCondition::Between { minimum: 4, maximum: 2 };
    assert_eq!(validate_rule(&bad).unwrap_err(), "最低评分不能高于最高评分");
    let mut empty = rule("a", "x", RuleAction::Keep, None);
    empty.member_scope.clear();
    assert_eq!(validate_rule(&empty).unwrap_err(), "至少选择一种处理格式");
    let mut twice = rule("a", "x", RuleAction::Keep, None);
    twice.member_scope = vec![RuleMemberKind::Xmp, RuleMemberKind::Xmp];
    assert_eq!(validate_rule(&twice).unwrap_err(), "处理格式不能重复");
}

#[test]
fn rule_sets_reject_repeated_ids_and_name_the_failing_rule() {
    let rules = vec![rule("a", "一", RuleAction::Keep, None), rule(" a ", "二", RuleAction::Keep, None)];
    assert_eq!(validate_rule_set(&rules).unwrap_err(), "规则 ID 重复： a ");
    let rules = vec![rule("a", " 复制 ", RuleAction::Copy, None)];
    assert_eq!(
        validate_rule_set(&rules).unwrap_err(),
        "规则“复制”：复制规则必须选择目标目录"
    );
    let ok = vec![rule("a", "一", RuleAction::Copy, Some("/out"))];
    let copy = validate_rule_set(&ok).expect("valid");
    assert_eq!(copy.len(), 1);
    assert_eq!(copy[0].destination.as_deref(), Some("/out"));
}

#[test]
fn rule_sets_hold_at_most_one_hundred_rules() {
    let rules: Vec<RatingRule> =
        (0..101).map(|i| rule(&format!("r{i}"), "x", RuleAction::Keep, None)).collect();
    assert_eq!(validate_rule_set(&rules).unwrap_err(), "最多只能创建 100 条规则");
}
