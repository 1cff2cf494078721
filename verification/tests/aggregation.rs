//! Aggregation conditions.
use event_rule::aggregation::{AggegationConditionCompiler, AggregationConditionToken};

#[test]
fn test_aggegation_condition_compiler_no_count() {
    let compiler = AggegationConditionCompiler::new();
    let result = compiler.compile("select1 and select2".to_string());
    assert_eq!(true, result.is_ok());
    let result = result.unwrap();
    assert_eq!(true, result.is_none());
}

#[test]
fn test_aggegation_condition_compiler_count_ope() {
    let token =
        check_aggregation_condition_ope("select1 and select2|count() > 32".to_string(), 32);
    let is_gt = match token {
        AggregationConditionToken::GT => true,
        _ => false,
    };
    assert_eq!(is_gt, true);

    let token =
        check_aggregation_condition_ope("select1 and select2|count() >= 43".to_string(), 43);
    let is_gt = match token {
        AggregationConditionToken::GE => true,
        _ => false,
    };
    assert_eq!(is_gt, true);

    let token =
        check_aggregation_condition_ope("select1 and select2|count() < 59".to_string(), 59);
    let is_gt = match token {
        AggregationConditionToken::LT => true,
        _ => false,
    };
    assert_eq!(is_gt, true);

    let token =
        check_aggregation_condition_ope("select1 and select2|count() <= 12".to_string(), 12);
    let is_gt = match token {
        AggregationConditionToken::LE => true,
        _ => false,
    };
    assert_eq!(is_gt, true);

    let token =
        check_aggregation_condition_ope("select1 and select2|count() == 28".to_string(), 28);
    let is_gt = match token {
        AggregationConditionToken::EQ => true,
        _ => false,
    };
    assert_eq!(is_gt, true);
}

#[test]
fn test_aggegation_condition_compiler_count_by() {
    let compiler = AggegationConditionCompiler::new();
    let result = compiler.compile("select1 or select2 | count() by iiibbb > 27".to_string());

    assert_eq!(true, result.is_ok());
    let result = result.unwrap();
    assert_eq!(true, result.is_some());

    let result = result.unwrap();
    assert_eq!("iiibbb".to_string(), result._by_field_name.unwrap());
    assert_eq!(true, result._field_name.is_none());
    assert_eq!(27, result._cmp_num);
    let is_ok = match result._cmp_op {
        AggregationConditionToken::GT => true,
        _ => false,
    };
    assert_eq!(true, is_ok);
}

#[test]
fn test_aggegation_condition_compiler_count_field() {
    let compiler = AggegationConditionCompiler::new();
    let result = compiler.compile("select1 or select2 | count( hogehoge    ) > 3".to_string());

    assert_eq!(true, result.is_ok());
    let result = result.unwrap();
    assert_eq!(true, result.is_some());

    let result = result.unwrap();
    assert_eq!(true, result._by_field_name.is_none());
    assert_eq!("hogehoge", result._field_name.unwrap());
    assert_eq!(3, result._cmp_num);
    let is_ok = match result._cmp_op {
        AggregationConditionToken::GT => true,
        _ => false,
    };
    assert_eq!(true, is_ok);
}

#[test]
fn test_aggegation_condition_compiler_count_all_field() {
    let compiler = AggegationConditionCompiler::new();
    let result =
        compiler.compile("select1 or select2 | count( hogehoge) by snsn > 3".to_string());

    assert_eq!(true, result.is_ok());
    let result = result.unwrap();
    assert_eq!(true, result.is_some());

    let result = result.unwrap();
    assert_eq!("snsn".to_string(), result._by_field_name.unwrap());
    assert_eq!("hogehoge", result._field_name.unwrap());
    assert_eq!(3, result._cmp_num);
    let is_ok = match result._cmp_op {
        AggregationConditionToken::GT => true,
        _ => false,
    };
    assert_eq!(true, is_ok);
}

#[test]
fn test_aggegation_condition_compiler_only_pipe() {
    let compiler = AggegationConditionCompiler::new();
    let result = compiler.compile("select1 or select2 |".to_string());

    assert_eq!(true, result.is_err());
    assert_eq!(
        "aggregation condition parse error has occurred. There are no strings after pipe(|)."
            .to_string(),
        result.unwrap_err()
    );
}

#[test]
fn test_aggegation_condition_compiler_unused_character() {
    let compiler = AggegationConditionCompiler::new();
    let result =
        compiler.compile("select1 or select2 | count( hogeess ) by ii-i > 33".to_string());

    assert_eq!(true, result.is_err());
    assert_eq!(
        "aggregation condition parse error has occurred. An unusable character was found."
            .to_string(),
        result.unwrap_err()
    );
}

#[test]
fn test_aggegation_condition_compiler_not_count() {
    let compiler = AggegationConditionCompiler::new();
    let result =
        compiler.compile("select1 or select2 | by count( hogehoge) by snsn > 3".to_string());

    assert_eq!(true, result.is_err());
    assert_eq!("aggregation condition parse error has occurred. aggregation condition can use count only.".to_string(),result.unwrap_err());
}

#[test]
fn test_aggegation_condition_compiler_no_ope() {
    let compiler = AggegationConditionCompiler::new();
    let result = compiler.compile("select1 or select2 | count( hogehoge) 3".to_string());

    assert_eq!(true, result.is_err());
    assert_eq!("aggregation condition parse error has occurred. count keyword needs compare operator and number like '> 3'".to_string(),result.unwrap_err());
}

#[test]
fn test_aggegation_condition_compiler_by() {
    let compiler = AggegationConditionCompiler::new();
    let result = compiler.compile("select1 or select2 | count( hogehoge) by".to_string());

    assert_eq!(true, result.is_err());
    assert_eq!("aggregation condition parse error has occurred. by keyword needs field name like 'by EventID'".to_string(),result.unwrap_err());
}

#[test]
fn test_aggegation_condition_compiler_no_ope_afterby() {
    let compiler = AggegationConditionCompiler::new();
    let result =
        compiler.compile("select1 or select2 | count( hogehoge ) by hoe >".to_string());

    assert_eq!(true, result.is_err());
    assert_eq!("aggregation condition parse error has occurred. compare operator needs a number like '> 3'.".to_string(),result.unwrap_err());
}

#[test]
fn test_aggegation_condition_compiler_unneccesary_word() {
    let compiler = AggegationConditionCompiler::new();
    let result =
        compiler.compile("select1 or select2 | count( hogehoge ) by hoe > 3 33".to_string());

    assert_eq!(true, result.is_err());
    assert_eq!(
        "aggregation condition parse error has occurred. unnecessary word was found."
            .to_string(),
        result.unwrap_err()
    );
}

fn check_aggregation_condition_ope(expr: String, cmp_num: i32) -> AggregationConditionToken {
    let compiler = AggegationConditionCompiler::new();
    let result = compiler.compile(expr);

    assert_eq!(true, result.is_ok());
    let result = result.unwrap();
    assert_eq!(true, result.is_some());

    let result = result.unwrap();
    assert_eq!(true, result._by_field_name.is_none());
    assert_eq!(true, result._field_name.is_none());
    assert_eq!(cmp_num, result._cmp_num);
    return result._cmp_op;
}
