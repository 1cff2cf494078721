//! Rules, from their YAML to what they detect in event records.
use event_rule::event::{Number, Value};
use event_rule::matcher::LeafMatcher;
use event_rule::rule::{create_rule, RuleNode};
use event_rule::selection::{LeafSelectionNode, SelectionNode};
use event_rule::table::TextTable;
use event_rule::yaml::Yaml;
use yaml_rust::YamlLoader;

fn to_yaml(yaml: &yaml_rust::Yaml) -> Yaml {
    match yaml {
        yaml_rust::Yaml::Real(r) => Yaml::Real(r.clone()),
        yaml_rust::Yaml::Integer(i) => Yaml::Integer(*i),
        yaml_rust::Yaml::String(s) => Yaml::String(s.clone()),
        yaml_rust::Yaml::Boolean(b) => Yaml::Boolean(*b),
        yaml_rust::Yaml::Array(items) => Yaml::Array(items.iter().map(to_yaml).collect()),
        yaml_rust::Yaml::Hash(entries) => Yaml::Hash(
            entries
                .iter()
                .map(|(key, value)| (to_yaml(key), to_yaml(value)))
                .collect(),
        ),
        yaml_rust::Yaml::Alias(n) => Yaml::Alias(*n),
        yaml_rust::Yaml::Null => Yaml::Null,
        yaml_rust::Yaml::BadValue => Yaml::BadValue,
    }
}

fn to_value(value: &serde_json::Value) -> Value {
    match value {
        serde_json::Value::Null => Value::Null,
        serde_json::Value::Bool(b) => Value::Bool(*b),
        serde_json::Value::Number(n) => Value::Number(if let Some(u) = n.as_u64() {
            Number::PosInt(u)
        } else if let Some(i) = n.as_i64() {
            Number::NegInt(i)
        } else {
            Number::Float(n.to_string())
        }),
        serde_json::Value::String(s) => Value::String(s.clone()),
        serde_json::Value::Array(items) => Value::Array(items.iter().map(to_value).collect()),
        serde_json::Value::Object(members) => Value::Object(
            members
                .iter()
                .map(|(name, value)| (name.clone(), to_value(value)))
                .collect(),
        ),
    }
}

fn aliases() -> TextTable<String> {
    let mut table = TextTable::new();
    for (key, path) in [
        ("EventID", "Event.System.EventID"),
        ("Channel", "Event.System.Channel"),
        ("Computer", "Event.System.Computer"),
        ("TargetUserName", "Event.EventData.TargetUserName"),
        ("param1", "Event.EventData.param1"),
        ("param2", "Event.EventData.param2"),
    ] {
        table.insert(key.to_string(), path.to_string());
    }
    table
}

fn row(cells: &[&str]) -> Vec<String> {
    cells.iter().map(|cell| cell.to_string()).collect()
}

fn csv_files() -> TextTable<Vec<Vec<String>>> {
    let mut regexes = vec![row(&[
        "0",
        r"^cmd.exe /c echo [a-z]{6} > \\\\.\\pipe\\[a-z]{6}$",
        r"Metasploit-style cmd with pipe (possible use of Meterpreter 'getsystem')",
    ])];
    for i in 1..13 {
        let regex = format!("^tool{}\\.exe", i);
        let remark = format!("Tool number {}", i);
        regexes.push(row(&["0", &regex, &remark]));
    }
    regexes.push(row(&[
        "0",
        r"\\cvtres\.exe.*\\AppData\\Local\\Temp\\[A-Z0-9]{7}\.tmp",
        r"PSAttack-style command via cvtres.exe",
    ]));
    let whitelist = vec![
        row(&[r#"^"C:\\Program Files\\Google\\Chrome\\Application\\chrome\.exe""#]),
        row(&[r#"^"C:\\Program Files\\Google\\Update\\GoogleUpdate\.exe""#]),
    ];
    let mut table = TextTable::new();
    table.insert("./regexes.txt".to_string(), regexes.clone());
    table.insert("regexes.txt".to_string(), regexes);
    table.insert("./whitelist.txt".to_string(), whitelist.clone());
    table.insert("whitelist.txt".to_string(), whitelist);
    table
}

fn select(rule_node: &RuleNode, record: &serde_json::Value) -> bool {
    rule_node.select(&to_value(record), &aliases())
}

fn parse_rule_from_str(rule_str: &str) -> RuleNode {
    let rule_yaml = YamlLoader::load_from_str(rule_str);
    assert_eq!(rule_yaml.is_ok(), true);
    let rule_yamls = rule_yaml.unwrap();
    let mut rule_yaml = rule_yamls.into_iter();
    let mut rule_node = create_rule(to_yaml(&rule_yaml.next().unwrap()));
    assert_eq!(rule_node.can_init(), true);
    assert_eq!(rule_node.init(&csv_files()).is_ok(), true);
    return rule_node;
}

fn check_rule_parse_error(rule_str: &str, errmsgs: Vec<String>) {
    let mut rule_yaml = YamlLoader::load_from_str(rule_str).unwrap().into_iter();
    let mut rule_node = create_rule(to_yaml(&rule_yaml.next().unwrap()));

    assert_eq!(rule_node.can_init(), true);
    assert_eq!(rule_node.init(&csv_files()), Err(errmsgs));
}

fn check_select(rule_str: &str, record_str: &str, expect_select: bool) {
    let rule_node = parse_rule_from_str(rule_str);
    match serde_json::from_str(record_str) {
        Ok(record) => {
            assert_eq!(select(&rule_node, &record), expect_select);
        }
        Err(_rec) => {
            assert!(false, "failed to parse json record.");
        }
    }
}

fn leaf(node: &SelectionNode) -> &LeafSelectionNode {
    match node {
        SelectionNode::Leaf(leaf) => leaf,
        _ => panic!("not a leaf"),
    }
}

fn regex_of(leaf: &LeafSelectionNode) -> &str {
    match leaf.matcher.as_ref().unwrap() {
        LeafMatcher::Regex(matcher) => {
            assert_eq!(matcher.re.is_some(), true);
            matcher.re.as_ref().unwrap().as_str()
        }
        _ => panic!("not a regular expression"),
    }
}

const SIMPLE_RECORD_STR: &str = r#"
    {
      "Event": {
        "System": {
          "EventID": 7040,
          "Channel": "System"
        },
        "EventData": {
          "param1": "Windows Event Log",
          "param2": "auto start"
        }
      },
      "Event_attributes": {
        "xmlns": "http://schemas.microsoft.com/win/2004/08/events/event"
      }
    }"#;

#[test]
fn test_rule_parse() {
    let rule_str = r#"
        title: PowerShell Execution Pipeline
        description: hogehoge
        enabled: true
        author: Yea
        logsource: 
            product: windows
        detection:
            selection:
                Channel: Microsoft-Windows-PowerShell/Operational
                EventID: 4103
                ContextInfo:
                    - Host Application
                    - ホスト アプリケーション
                ImagePath:
                    min_length: 1234321
                    regexes: ./regexes.txt
                    whitelist: ./whitelist.txt
        falsepositives:
            - unknown
        level: medium
        output: 'command=%CommandLine%'
        creation_date: 2020/11/8
        updated_date: 2020/11/8
        "#;
    let rule_node = parse_rule_from_str(rule_str);
    let detection = rule_node.detection.unwrap();
    let selection_node = detection.name_to_selection.get("selection").unwrap();

    // Root
    let detection_childs = selection_node.get_childs();
    assert_eq!(detection_childs.len(), 4);

    // Channel
    {
        let child_node = leaf(detection_childs[0]);
        assert_eq!(child_node.get_key(), "Channel");
        assert_eq!(child_node.get_childs().len(), 0);
        assert_eq!(child_node.matcher.is_some(), true);
        assert_eq!(
            regex_of(child_node),
            "Microsoft-Windows-PowerShell/Operational"
        );
    }

    // EventID
    {
        let child_node = leaf(detection_childs[1]);
        assert_eq!(child_node.get_key(), "EventID");
        assert_eq!(child_node.get_childs().len(), 0);
        assert_eq!(child_node.matcher.is_some(), true);
        assert_eq!(regex_of(child_node), "4103");
    }

    // ContextInfo
    {
        let child_node = match detection_childs[2] {
            SelectionNode::Or(node) => node,
            _ => panic!("not a disjunction"),
        };
        let ancestors = child_node.get_childs();
        assert_eq!(ancestors.len(), 2);

        let hostapp_en_node = leaf(ancestors[0]);
        assert_eq!(hostapp_en_node.matcher.is_some(), true);
        assert_eq!(regex_of(hostapp_en_node), "Host Application");

        let hostapp_jp_node = leaf(ancestors[1]);
        assert_eq!(hostapp_jp_node.matcher.is_some(), true);
        assert_eq!(regex_of(hostapp_jp_node), "ホスト アプリケーション");
    }

    // ImagePath
    {
        let child_node = match detection_childs[3] {
            SelectionNode::And(node) => node,
            _ => panic!("not a conjunction"),
        };
        let ancestors = child_node.get_childs();
        assert_eq!(ancestors.len(), 3);

        match leaf(ancestors[0]).matcher.as_ref().unwrap() {
            LeafMatcher::Minlength(matcher) => assert_eq!(matcher.min_len, 1234321),
            _ => panic!("not a minimum length"),
        }

        match leaf(ancestors[1]).matcher.as_ref().unwrap() {
            LeafMatcher::Regexes(matcher) => {
                let csvcontent = &matcher.regexes_csv_content;
                assert_eq!(csvcontent.len(), 14);

                let firstcontent = &csvcontent[0];
                assert_eq!(firstcontent.len(), 3);
                assert_eq!(firstcontent[0], "0");
                assert_eq!(
                    firstcontent[1],
                    r"^cmd.exe /c echo [a-z]{6} > \\\\.\\pipe\\[a-z]{6}$"
                );
                assert_eq!(
                    firstcontent[2],
                    r"Metasploit-style cmd with pipe (possible use of Meterpreter 'getsystem')"
                );

                let lastcontent = &csvcontent[13];
                assert_eq!(lastcontent.len(), 3);
                assert_eq!(lastcontent[0], "0");
                assert_eq!(
                    lastcontent[1],
                    r"\\cvtres\.exe.*\\AppData\\Local\\Temp\\[A-Z0-9]{7}\.tmp"
                );
                assert_eq!(lastcontent[2], r"PSAttack-style command via cvtres.exe");
            }
            _ => panic!("not a list of regular expressions"),
        }

        match leaf(ancestors[2]).matcher.as_ref().unwrap() {
            LeafMatcher::Whitelist(matcher) => {
                let csvcontent = &matcher.whitelist_csv_content;
                assert_eq!(csvcontent.len(), 2);

                assert_eq!(
                    csvcontent[0][0],
                    r#"^"C:\\Program Files\\Google\\Chrome\\Application\\chrome\.exe""#.to_string()
                );
                assert_eq!(
                    csvcontent[1][0],
                    r#"^"C:\\Program Files\\Google\\Update\\GoogleUpdate\.exe""#.to_string()
                );
            }
            _ => panic!("not a list of exceptions"),
        }
    }
}

#[test]
fn test_notdetect_regex_eventid() {
    let rule_str = r#"
    enabled: true
    detection:
        selection:
            EventID: 4103
    output: 'command=%CommandLine%'
    "#;

    let record_json_str = r#"
    {
        "Event": {"System": {"EventID": 410}},
        "Event_attributes": {"xmlns": "http://schemas.microsoft.com/win/2004/08/events/event"}
    }"#;

    let rule_node = parse_rule_from_str(rule_str);

    match serde_json::from_str(record_json_str) {
        Ok(record) => {
            assert_eq!(select(&rule_node, &record), false);
        }
        Err(_) => {
            assert!(false, "failed to parse json record.");
        }
    }
}

#[test]
fn test_notdetect_regex_eventid2() {
    let rule_str = r#"
    enabled: true
    detection:
        selection:
            EventID: 4103
    output: 'command=%CommandLine%'
    "#;

    let record_json_str = r#"
    {
        "Event": {"System": {"EventID": 103}},
        "Event_attributes": {"xmlns": "http://schemas.microsoft.com/win/2004/08/events/event"}
    }"#;

    let rule_node = parse_rule_from_str(rule_str);
    match serde_json::from_str(record_json_str) {
        Ok(record) => {
            assert_eq!(select(&rule_node, &record), false);
        }
        Err(_) => {
            assert!(false, "failed to parse json record.");
        }
    }
}

#[test]
fn test_detect_regex_eventid() {
    let rule_str = r#"
    enabled: true
    detection:
        selection:
            EventID: 4103
    output: 'command=%CommandLine%'
    "#;

    let record_json_str = r#"
    {
        "Event": {"System": {"EventID": 4103}},
        "Event_attributes": {"xmlns": "http://schemas.microsoft.com/win/2004/08/events/event"}
    }"#;

    let rule_node = parse_rule_from_str(rule_str);
    match serde_json::from_str(record_json_str) {
        Ok(record) => {
            assert_eq!(select(&rule_node, &record), true);
        }
        Err(_) => {
            assert!(false, "failed to parse json record.");
        }
    }
}

#[test]
fn test_notdetect_regex_str() {
    let rule_str = r#"
    enabled: true
    detection:
        selection:
            Channel: Security
    output: 'command=%CommandLine%'
    "#;

    let record_json_str = r#"
    {
        "Event": {"System": {"EventID": 4103, "Channel": "Securit"}},
        "Event_attributes": {"xmlns": "http://schemas.microsoft.com/win/2004/08/events/event"}
    }"#;

    let rule_node = parse_rule_from_str(rule_str);
    match serde_json::from_str(record_json_str) {
        Ok(record) => {
            assert_eq!(select(&rule_node, &record), false);
        }
        Err(_) => {
            assert!(false, "failed to parse json record.");
        }
    }
}

#[test]
fn test_notdetect_regex_str2() {
    let rule_str = r#"
    enabled: true
    detection:
        selection:
            Channel: Security
    output: 'command=%CommandLine%'
    "#;

    let record_json_str = r#"
    {
        "Event": {"System": {"EventID": 4103, "Channel": "ecurity"}},
        "Event_attributes": {"xmlns": "http://schemas.microsoft.com/win/2004/08/events/event"}
    }"#;

    let rule_node = parse_rule_from_str(rule_str);
    match serde_json::from_str(record_json_str) {
        Ok(record) => {
            assert_eq!(select(&rule_node, &record), false);
        }
        Err(_) => {
            assert!(false, "failed to parse json record.");
        }
    }
}

#[test]
fn test_detect_regex_str() {
    let rule_str = r#"
    enabled: true
    detection:
        selection:
            Channel: Security
    output: 'command=%CommandLine%'
    "#;

    let record_json_str = r#"
    {
        "Event": {"System": {"EventID": 4103, "Channel": "Security"}},
        "Event_attributes": {"xmlns": "http://schemas.microsoft.com/win/2004/08/events/event"}
    }"#;

    let rule_node = parse_rule_from_str(rule_str);
    match serde_json::from_str(record_json_str) {
        Ok(record) => {
            assert_eq!(select(&rule_node, &record), true);
        }
        Err(_) => {
            assert!(false, "failed to parse json record.");
        }
    }
}

#[test]
fn test_notdetect_regex_emptystr() {
    let rule_str = r#"
    enabled: true
    detection:
        selection:
            Channel: Security
    output: 'command=%CommandLine%'
    "#;

    let record_json_str = r#"
    {
        "Event": {"System": {"Channel": ""}},
        "Event_attributes": {"xmlns": "http://schemas.microsoft.com/win/2004/08/events/event"}
    }"#;

    let rule_node = parse_rule_from_str(rule_str);
    match serde_json::from_str(record_json_str) {
        Ok(record) => {
            assert_eq!(select(&rule_node, &record), false);
        }
        Err(_) => {
            assert!(false, "failed to parse json record.");
        }
    }
}

#[test]
fn test_detect_mutiple_regex_and() {
    let rule_str = r#"
    enabled: true
    detection:
        selection:
            Channel: Security
            EventID: 4103
    output: 'command=%CommandLine%'
    "#;

    let record_json_str = r#"
    {
        "Event": {"System": {"EventID": 4103, "Channel": "Security"}},
        "Event_attributes": {"xmlns": "http://schemas.microsoft.com/win/2004/08/events/event"}
    }"#;

    let rule_node = parse_rule_from_str(rule_str);
    match serde_json::from_str(record_json_str) {
        Ok(record) => {
            assert_eq!(select(&rule_node, &record), true);
        }
        Err(_) => {
            assert!(false, "failed to parse json record.");
        }
    }
}

#[test]
fn test_notdetect_mutiple_regex_and() {
    let rule_str = r#"
    enabled: true
    detection:
        selection:
            Channel: Security
            EventID: 4103
            Computer: DESKTOP-ICHIICHIN
    output: 'command=%CommandLine%'
    "#;

    let record_json_str = r#"
    {
        "Event": {"System": {"EventID": 4103, "Channel": "Security", "Computer":"DESKTOP-ICHIICHI"}},
        "Event_attributes": {"xmlns": "http://schemas.microsoft.com/win/2004/08/events/event"}
    }"#;

    let rule_node = parse_rule_from_str(rule_str);
    match serde_json::from_str(record_json_str) {
        Ok(record) => {
            assert_eq!(select(&rule_node, &record), false);
        }
        Err(_) => {
            assert!(false, "failed to parse json record.");
        }
    }
}

#[test]
fn test_detect_dotkey() {
    let rule_str = r#"
    enabled: true
    detection:
        selection:
            Event.System.Computer: DESKTOP-ICHIICHI
    output: 'command=%CommandLine%'
    "#;

    let record_json_str = r#"
    {
        "Event": {"System": {"EventID": 4103, "Channel": "Security", "Computer":"DESKTOP-ICHIICHI"}},
        "Event_attributes": {"xmlns": "http://schemas.microsoft.com/win/2004/08/events/event"}
    }"#;

    let rule_node = parse_rule_from_str(rule_str);
    match serde_json::from_str(record_json_str) {
        Ok(record) => {
            assert_eq!(select(&rule_node, &record), true);
        }
        Err(_) => {
            assert!(false, "failed to parse json record.");
        }
    }
}

#[test]
fn test_notdetect_dotkey() {
    let rule_str = r#"
    enabled: true
    detection:
        selection:
            Event.System.Computer: DESKTOP-ICHIICHIN
    output: 'command=%CommandLine%'
    "#;

    let record_json_str = r#"
    {
        "Event": {"System": {"EventID": 4103, "Channel": "Security", "Computer":"DESKTOP-ICHIICHI"}},
        "Event_attributes": {"xmlns": "http://schemas.microsoft.com/win/2004/08/events/event"}
    }"#;

    let rule_node = parse_rule_from_str(rule_str);
    match serde_json::from_str(record_json_str) {
        Ok(record) => {
            assert_eq!(select(&rule_node, &record), false);
        }
        Err(_) => {
            assert!(false, "failed to parse json record.");
        }
    }
}

#[test]
fn test_notdetect_differentkey() {
    let rule_str = r#"
    enabled: true
    detection:
        selection:
            Channel: NOTDETECT
    output: 'command=%CommandLine%'
    "#;

    let record_json_str = r#"
    {
        "Event": {"System": {"EventID": 4103, "Channel": "Security", "Computer":"DESKTOP-ICHIICHI"}},
        "Event_attributes": {"xmlns": "http://schemas.microsoft.com/win/2004/08/events/event"}
    }"#;

    let rule_node = parse_rule_from_str(rule_str);
    match serde_json::from_str(record_json_str) {
        Ok(record) => {
            assert_eq!(select(&rule_node, &record), false);
        }
        Err(_) => {
            assert!(false, "failed to parse json record.");
        }
    }
}

#[test]
fn test_detect_or() {
    let rule_str = r#"
    enabled: true
    detection:
        selection:
            Channel: 
                - PowerShell
                - Security
    output: 'command=%CommandLine%'
    "#;

    let record_json_str = r#"
    {
        "Event": {"System": {"EventID": 4103, "Channel": "Security", "Computer":"DESKTOP-ICHIICHI"}},
        "Event_attributes": {"xmlns": "http://schemas.microsoft.com/win/2004/08/events/event"}
    }"#;

    let rule_node = parse_rule_from_str(rule_str);
    match serde_json::from_str(record_json_str) {
        Ok(record) => {
            assert_eq!(select(&rule_node, &record), true);
        }
        Err(_) => {
            assert!(false, "failed to parse json record.");
        }
    }
}

#[test]
fn test_detect_or2() {
    let rule_str = r#"
    enabled: true
    detection:
        selection:
            Channel: 
                - PowerShell
                - Security
    output: 'command=%CommandLine%'
    "#;

    let record_json_str = r#"
    {
        "Event": {"System": {"EventID": 4103, "Channel": "PowerShell", "Computer":"DESKTOP-ICHIICHI"}},
        "Event_attributes": {"xmlns": "http://schemas.microsoft.com/win/2004/08/events/event"}
    }"#;

    let rule_node = parse_rule_from_str(rule_str);
    match serde_json::from_str(record_json_str) {
        Ok(record) => {
            assert_eq!(select(&rule_node, &record), true);
        }
        Err(_) => {
            assert!(false, "failed to parse json record.");
        }
    }
}

#[test]
fn test_notdetect_or() {
    let rule_str = r#"
    enabled: true
    detection:
        selection:
            Channel: 
                - PowerShell
                - Security
    output: 'command=%CommandLine%'
    "#;

    let record_json_str = r#"
    {
        "Event": {"System": {"EventID": 4103, "Channel": "not detect", "Computer":"DESKTOP-ICHIICHI"}},
        "Event_attributes": {"xmlns": "http://schemas.microsoft.com/win/2004/08/events/event"}
    }"#;

    let rule_node = parse_rule_from_str(rule_str);
    match serde_json::from_str(record_json_str) {
        Ok(record) => {
            assert_eq!(select(&rule_node, &record), false);
        }
        Err(_) => {
            assert!(false, "failed to parse json record.");
        }
    }
}

#[test]
fn test_notdetect_casesensetive() {
    let rule_str = r#"
    enabled: true
    detection:
        selection:
            Channel: Security
    output: 'command=%CommandLine%'
    "#;

    let record_json_str = r#"
    {
        "Event": {"System": {"EventID": 4103, "Channel": "security", "Computer":"DESKTOP-ICHIICHI"}},
        "Event_attributes": {"xmlns": "http://schemas.microsoft.com/win/2004/08/events/event"}
    }"#;

    let rule_node = parse_rule_from_str(rule_str);
    match serde_json::from_str(record_json_str) {
        Ok(record) => {
            assert_eq!(select(&rule_node, &record), false);
        }
        Err(_) => {
            assert!(false, "failed to parse json record.");
        }
    }
}

#[test]
fn test_notdetect_minlen() {
    let rule_str = r#"
    enabled: true
    detection:
        selection:
            Channel:
                min_length: 10
    output: 'command=%CommandLine%'
    "#;

    let record_json_str = r#"
    {
        "Event": {"System": {"EventID": 4103, "Channel": "Security9", "Computer":"DESKTOP-ICHIICHI"}},
        "Event_attributes": {"xmlns": "http://schemas.microsoft.com/win/2004/08/events/event"}
    }"#;

    let rule_node = parse_rule_from_str(rule_str);
    match serde_json::from_str(record_json_str) {
        Ok(record) => {
            assert_eq!(select(&rule_node, &record), false);
        }
        Err(_) => {
            assert!(false, "failed to parse json record.");
        }
    }
}

#[test]
fn test_detect_minlen() {
    let rule_str = r#"
    enabled: true
    detection:
        selection:
            Channel:
                min_length: 10
    output: 'command=%CommandLine%'
    "#;

    let record_json_str = r#"
    {
        "Event": {"System": {"EventID": 4103, "Channel": "Security10", "Computer":"DESKTOP-ICHIICHI"}},
        "Event_attributes": {"xmlns": "http://schemas.microsoft.com/win/2004/08/events/event"}
    }"#;

    let rule_node = parse_rule_from_str(rule_str);
    match serde_json::from_str(record_json_str) {
        Ok(record) => {
            assert_eq!(select(&rule_node, &record), true);
        }
        Err(_) => {
            assert!(false, "failed to parse json record.");
        }
    }
}

#[test]
fn test_detect_minlen2() {
    let rule_str = r#"
    enabled: true
    detection:
        selection:
            Channel:
                min_length: 10
    output: 'command=%CommandLine%'
    "#;

    let record_json_str = r#"
    {
        "Event": {"System": {"EventID": 4103, "Channel": "Security.11", "Computer":"DESKTOP-ICHIICHI"}},
        "Event_attributes": {"xmlns": "http://schemas.microsoft.com/win/2004/08/events/event"}
    }"#;

    let rule_node = parse_rule_from_str(rule_str);
    match serde_json::from_str(record_json_str) {
        Ok(record) => {
            assert_eq!(select(&rule_node, &record), true);
        }
        Err(_) => {
            assert!(false, "failed to parse json record.");
        }
    }
}

#[test]
fn test_detect_minlen_and() {
    let rule_str = r#"
    enabled: true
    detection:
        selection:
            Channel:
                regex: Security10
                min_length: 10
    output: 'command=%CommandLine%'
    "#;

    let record_json_str = r#"
    {
        "Event": {"System": {"EventID": 4103, "Channel": "Security10", "Computer":"DESKTOP-ICHIICHI"}},
        "Event_attributes": {"xmlns": "http://schemas.microsoft.com/win/2004/08/events/event"}
    }"#;

    let rule_node = parse_rule_from_str(rule_str);
    match serde_json::from_str(record_json_str) {
        Ok(record) => {
            assert_eq!(select(&rule_node, &record), true);
        }
        Err(_) => {
            assert!(false, "failed to parse json record.");
        }
    }
}

#[test]
fn test_notdetect_minlen_and() {
    let rule_str = r#"
    enabled: true
    detection:
        selection:
            Channel:
                regex: Security10
                min_length: 11
    output: 'command=%CommandLine%'
    "#;

    let record_json_str = r#"
    {
        "Event": {"System": {"EventID": 4103, "Channel": "Security10", "Computer":"DESKTOP-ICHIICHI"}},
        "Event_attributes": {"xmlns": "http://schemas.microsoft.com/win/2004/08/events/event"}
    }"#;

    let rule_node = parse_rule_from_str(rule_str);
    match serde_json::from_str(record_json_str) {
        Ok(record) => {
            assert_eq!(select(&rule_node, &record), false);
        }
        Err(_) => {
            assert!(false, "failed to parse json record.");
        }
    }
}

#[test]
fn test_detect_regex() {
    let rule_str = r#"
    enabled: true
    detection:
        selection:
            Channel: ^Program$
    output: 'command=%CommandLine%'
    "#;

    let record_json_str = r#"
    {
        "Event": {"System": {"EventID": 4103, "Channel": "Program", "Computer":"DESKTOP-ICHIICHI"}},
        "Event_attributes": {"xmlns": "http://schemas.microsoft.com/win/2004/08/events/event"}
    }"#;

    let rule_node = parse_rule_from_str(rule_str);
    match serde_json::from_str(record_json_str) {
        Ok(record) => {
            assert_eq!(select(&rule_node, &record), true);
        }
        Err(_) => {
            assert!(false, "failed to parse json record.");
        }
    }
}

#[test]
fn test_detect_regexes() {
    let rule_str = r#"
    enabled: true
    detection:
        selection:
            EventID: 4103
            Channel:
                - whitelist: whitelist.txt
    output: 'command=%CommandLine%'
    "#;

    let record_json_str = r#"
    {
        "Event": {"System": {"EventID": 4103, "Channel": "\"C:\\Program Files\\Google\\Update\\GoogleUpdate.exe\"", "Computer":"DESKTOP-ICHIICHI"}},
        "Event_attributes": {"xmlns": "http://schemas.microsoft.com/win/2004/08/events/event"}
    }"#;

    let rule_node = parse_rule_from_str(rule_str);
    match serde_json::from_str(record_json_str) {
        Ok(record) => {
            assert_eq!(select(&rule_node, &record), false);
        }
        Err(_) => {
            assert!(false, "failed to parse json record.");
        }
    }
}

#[test]
fn test_detect_whitelist() {
    let rule_str = r#"
    enabled: true
    detection:
        selection:
            EventID: 4103
            Channel:
                - whitelist: whitelist.txt
    output: 'command=%CommandLine%'
    "#;

    let record_json_str = r#"
    {
        "Event": {"System": {"EventID": 4103, "Channel": "\"C:\\Program Files\\Google\\Update\\GoogleUpdate.exe\"", "Computer":"DESKTOP-ICHIICHI"}},
        "Event_attributes": {"xmlns": "http://schemas.microsoft.com/win/2004/08/events/event"}
    }"#;

    let rule_node = parse_rule_from_str(rule_str);
    match serde_json::from_str(record_json_str) {
        Ok(record) => {
            assert_eq!(select(&rule_node, &record), false);
        }
        Err(_) => {
            assert!(false, "failed to parse json record.");
        }
    }
}

#[test]
fn test_detect_whitelist2() {
    let rule_str = r#"
    enabled: true
    detection:
        selection:
            EventID: 4103
            Channel:
                - whitelist: whitelist.txt
    output: 'command=%CommandLine%'
    "#;

    let record_json_str = r#"
    {
        "Event": {"System": {"EventID": 4103, "Channel": "\"C:\\Program Files\\Google\\Chrome\\Application\\chrome.exe\"", "Computer":"DESKTOP-ICHIICHI"}},
        "Event_attributes": {"xmlns": "http://schemas.microsoft.com/win/2004/08/events/event"}
    }"#;

    let rule_node = parse_rule_from_str(rule_str);
    match serde_json::from_str(record_json_str) {
        Ok(record) => {
            assert_eq!(select(&rule_node, &record), false);
        }
        Err(_) => {
            assert!(false, "failed to parse json record.");
        }
    }
}

#[test]
fn test_detect_attribute() {

    let rule_str = r#"
    enabled: true
    detection:
        selection:
            EventID: 4797
            Event.System.Provider_attributes.Guid: 54849625-5478-4994-A5BA-3E3B0328C30D
    output: 'command=%CommandLine%'
    "#;

    let record_json_str = r#"
    {
        "Event": {
          "System": {
            "Channel": "Security",
            "Correlation_attributes": {
              "ActivityID": "0188DD7A-447D-000C-82DD-88017D44D701"
            },
            "EventID": 4797,
            "EventRecordID": 239219,
            "Execution_attributes": {
              "ProcessID": 1172,
              "ThreadID": 23236
            },
            "Keywords": "0x8020000000000000",
            "Level": 0,
            "Opcode": 0,
            "Provider_attributes": {
              "Guid": "54849625-5478-4994-A5BA-3E3B0328C30D",
              "Name": "Microsoft-Windows-Security-Auditing"
            },
            "Security": null,
            "Task": 13824,
            "TimeCreated_attributes": {
              "SystemTime": "2021-05-12T09:39:19.828403Z"
            },
            "Version": 0
          }
        },
        "Event_attributes": {
          "xmlns": "http://schemas.microsoft.com/win/2004/08/events/event"
        }
      }"#;

    let rule_node = parse_rule_from_str(rule_str);
    match serde_json::from_str(record_json_str) {
        Ok(record) => {
            assert_eq!(select(&rule_node, &record), true);
        }
        Err(_) => {
            assert!(false, "failed to parse json record.");
        }
    }
}

#[test]
fn test_notdetect_attribute() {
    let rule_str = r#"
    enabled: true
    detection:
        selection:
            EventID: 4797
            Event.System.Provider_attributes.Guid: 54849625-5478-4994-A5BA-3E3B0328C30DSS
    output: 'command=%CommandLine%'
    "#;

    let record_json_str = r#"
    {
        "Event": {
          "System": {
            "Channel": "Security",
            "Correlation_attributes": {
              "ActivityID": "0188DD7A-447D-000C-82DD-88017D44D701"
            },
            "EventID": 4797,
            "EventRecordID": 239219,
            "Execution_attributes": {
              "ProcessID": 1172,
              "ThreadID": 23236
            },
            "Keywords": "0x8020000000000000",
            "Level": 0,
            "Opcode": 0,
            "Provider_attributes": {
              "Guid": "54849625-5478-4994-A5BA-3E3B0328C30D",
              "Name": "Microsoft-Windows-Security-Auditing"
            },
            "Security": null,
            "Task": 13824,
            "TimeCreated_attributes": {
              "SystemTime": "2021-05-12T09:39:19.828403Z"
            },
            "Version": 0
          }
        },
        "Event_attributes": {
          "xmlns": "http://schemas.microsoft.com/win/2004/08/events/event"
        }
      }"#;

    let rule_node = parse_rule_from_str(rule_str);
    match serde_json::from_str(record_json_str) {
        Ok(record) => {
            assert_eq!(select(&rule_node, &record), false);
        }
        Err(_) => {
            assert!(false, "failed to parse json record.");
        }
    }
}

#[test]
fn test_detect_eventdata() {


    let rule_str = r#"
    enabled: true
    detection:
        selection:
            Event.EventData.Workstation: 'TEST WorkStation'
            Event.EventData.TargetUserName: ichiichi11
    output: 'command=%CommandLine%'
    "#;

    let record_json_str = r#"
    {
        "Event": {
          "EventData": {
            "Workstation": "TEST WorkStation",
            "TargetUserName": "ichiichi11"
          },
          "System": {
            "Channel": "Security",
            "EventID": 4103,
            "EventRecordID": 239219,
            "Security": null
          }
        },
        "Event_attributes": {
          "xmlns": "http://schemas.microsoft.com/win/2004/08/events/event"
        }
    }
    "#;

    let rule_node = parse_rule_from_str(rule_str);
    match serde_json::from_str(record_json_str) {
        Ok(record) => {
            assert_eq!(select(&rule_node, &record), true);
        }
        Err(_) => {
            assert!(false, "failed to parse json record.");
        }
    }
}

#[test]
fn test_detect_eventdata2() {
    let rule_str = r#"
    enabled: true
    detection:
        selection:
            EventID: 4103
            TargetUserName: ichiichi11
    output: 'command=%CommandLine%'
    "#;

    let record_json_str = r#"
    {
        "Event": {
          "EventData": {
            "Workstation": "TEST WorkStation",
            "TargetUserName": "ichiichi11"
          },
          "System": {
            "Channel": "Security",
            "EventID": 4103,
            "EventRecordID": 239219,
            "Security": null
          }
        },
        "Event_attributes": {
          "xmlns": "http://schemas.microsoft.com/win/2004/08/events/event"
        }
    }
    "#;

    let rule_node = parse_rule_from_str(rule_str);
    match serde_json::from_str(record_json_str) {
        Ok(record) => {
            assert_eq!(select(&rule_node, &record), true);
        }
        Err(_) => {
            assert!(false, "failed to parse json record.");
        }
    }
}

#[test]
fn test_notdetect_eventdata() {
    let rule_str = r#"
    enabled: true
    detection:
        selection:
            EventID: 4103
            TargetUserName: ichiichi12
    output: 'command=%CommandLine%'
    "#;

    let record_json_str = r#"
    {
        "Event": {
          "EventData": {
            "Workstation": "TEST WorkStation",
            "TargetUserName": "ichiichi11"
          },
          "System": {
            "Channel": "Security",
            "EventID": 4103,
            "EventRecordID": 239219,
            "Security": null
          }
        },
        "Event_attributes": {
          "xmlns": "http://schemas.microsoft.com/win/2004/08/events/event"
        }
    }
    "#;

    let rule_node = parse_rule_from_str(rule_str);
    match serde_json::from_str(record_json_str) {
        Ok(record) => {
            assert_eq!(select(&rule_node, &record), false);
        }
        Err(_) => {
            assert!(false, "failed to parse json record.");
        }
    }
}

#[test]
fn test_detect_special_eventdata() {
    let rule_str = r#"
    enabled: true
    detection:
        selection:
            EventID: 403
            EventData: '[\s\S]*EngineVersion=2.0[\s\S]*'
    output: 'command=%CommandLine%'
    "#;

    let record_json_str = r#"
    {
        "Event": {
          "EventData": {
            "Binary": null,
            "Data": [
              "Stopped",
              "Available",
              "\tNewEngineState=Stopped\n\tPreviousEngineState=Available\n\n\tSequenceNumber=10\n\n\tHostName=ConsoleHost\n\tHostVersion=2.0\n\tHostId=5cbb33bf-acf7-47cc-9242-141cd0ba9f0c\n\tEngineVersion=2.0\n\tRunspaceId=c6e94dca-0daf-418c-860a-f751a9f2cbe1\n\tPipelineId=\n\tCommandName=\n\tCommandType=\n\tScriptName=\n\tCommandPath=\n\tCommandLine="
            ]
          },
          "System": {
            "Channel": "Windows PowerShell",
            "Computer": "DESKTOP-ST69BPO",
            "EventID": 403,
            "EventID_attributes": {
              "Qualifiers": 0
            },
            "EventRecordID": 730,
            "Keywords": "0x80000000000000",
            "Level": 4,
            "Provider_attributes": {
              "Name": "PowerShell"
            },
            "Security": null,
            "Task": 4,
            "TimeCreated_attributes": {
              "SystemTime": "2021-01-28T10:40:54.946866Z"
            }
          }
        },
        "Event_attributes": {
          "xmlns": "http://schemas.microsoft.com/win/2004/08/events/event"
        }
      }
    "#;

    let rule_node = parse_rule_from_str(rule_str);
    match serde_json::from_str(record_json_str) {
        Ok(record) => {
            assert_eq!(select(&rule_node, &record), true);
        }
        Err(_) => {
            assert!(false, "failed to parse json record.");
        }
    }
}

#[test]
fn test_notdetect_special_eventdata() {
    let rule_str = r#"
    enabled: true
    detection:
        selection:
            EventID: 403
            EventData: '[\s\S]*EngineVersion=3.0[\s\S]*'
    output: 'command=%CommandLine%'
    "#;

    let record_json_str = r#"
    {
        "Event": {
          "EventData": {
            "Binary": null,
            "Data": [
              "Stopped",
              "Available",
              "\tNewEngineState=Stopped\n\tPreviousEngineState=Available\n\n\tSequenceNumber=10\n\n\tHostName=ConsoleHost\n\tHostVersion=2.0\n\tHostId=5cbb33bf-acf7-47cc-9242-141cd0ba9f0c\n\tEngineVersion=2.0\n\tRunspaceId=c6e94dca-0daf-418c-860a-f751a9f2cbe1\n\tPipelineId=\n\tCommandName=\n\tCommandType=\n\tScriptName=\n\tCommandPath=\n\tCommandLine="
            ]
          },
          "System": {
            "Channel": "Windows PowerShell",
            "Computer": "DESKTOP-ST69BPO",
            "EventID": 403,
            "EventID_attributes": {
              "Qualifiers": 0
            },
            "EventRecordID": 730,
            "Keywords": "0x80000000000000",
            "Level": 4,
            "Provider_attributes": {
              "Name": "PowerShell"
            },
            "Security": null,
            "Task": 4,
            "TimeCreated_attributes": {
              "SystemTime": "2021-01-28T10:40:54.946866Z"
            }
          }
        },
        "Event_attributes": {
          "xmlns": "http://schemas.microsoft.com/win/2004/08/events/event"
        }
      }
    "#;

    let rule_node = parse_rule_from_str(rule_str);
    match serde_json::from_str(record_json_str) {
        Ok(record) => {
            assert_eq!(select(&rule_node, &record), false);
        }
        Err(_) => {
            assert!(false, "failed to parse json record.");
        }
    }
}

#[test]
fn test_detect_startswith1() {
    let rule_str = r#"
    enabled: true
    detection:
        selection:
            Channel: Security
            EventID: 4732
            TargetUserName|startswith: "Administrators"
    output: 'user added to local Administrators UserName: %MemberName% SID: %MemberSid%'
    "#;

    let record_json_str = r#"
    {
      "Event": {
        "System": {
          "EventID": 4732,
          "Channel": "Security"
        },
        "EventData": {
          "TargetUserName": "AdministratorsTest"
        }
      },
      "Event_attributes": {
        "xmlns": "http://schemas.microsoft.com/win/2004/08/events/event"
      }
    }"#;

    let rule_node = parse_rule_from_str(rule_str);
    match serde_json::from_str(record_json_str) {
        Ok(record) => {
            assert_eq!(select(&rule_node, &record), true);
        }
        Err(_rec) => {
            assert!(false, "failed to parse json record.");
        }
    }
}

#[test]
fn test_detect_startswith2() {
    let rule_str = r#"
    enabled: true
    detection:
        selection:
            Channel: Security
            EventID: 4732
            TargetUserName|startswith: "Administrators"
    output: 'user added to local Administrators UserName: %MemberName% SID: %MemberSid%'
    "#;

    let record_json_str = r#"
    {
      "Event": {
        "System": {
          "EventID": 4732,
          "Channel": "Security"
        },
        "EventData": {
          "TargetUserName": "TestAdministrators"
        }
      },
      "Event_attributes": {
        "xmlns": "http://schemas.microsoft.com/win/2004/08/events/event"
      }
    }"#;

    let rule_node = parse_rule_from_str(rule_str);
    match serde_json::from_str(record_json_str) {
        Ok(record) => {
            assert_eq!(select(&rule_node, &record), false);
        }
        Err(_rec) => {
            assert!(false, "failed to parse json record.");
        }
    }
}

#[test]
fn test_detect_endswith1() {
    let rule_str = r#"
    enabled: true
    detection:
        selection:
            Channel: Security
            EventID: 4732
            TargetUserName|endswith: "Administrators"
    output: 'user added to local Administrators UserName: %MemberName% SID: %MemberSid%'
    "#;

    let record_json_str = r#"
    {
      "Event": {
        "System": {
          "EventID": 4732,
          "Channel": "Security"
        },
        "EventData": {
          "TargetUserName": "TestAdministrators"
        }
      },
      "Event_attributes": {
        "xmlns": "http://schemas.microsoft.com/win/2004/08/events/event"
      }
    }"#;

    let rule_node = parse_rule_from_str(rule_str);
    match serde_json::from_str(record_json_str) {
        Ok(record) => {
            assert_eq!(select(&rule_node, &record), true);
        }
        Err(_rec) => {
            assert!(false, "failed to parse json record.");
        }
    }
}

#[test]
fn test_detect_endswith2() {
    let rule_str = r#"
    enabled: true
    detection:
        selection:
            Channel: Security
            EventID: 4732
            TargetUserName|endswith: "Administrators"
    output: 'user added to local Administrators UserName: %MemberName% SID: %MemberSid%'
    "#;

    let record_json_str = r#"
    {
      "Event": {
        "System": {
          "EventID": 4732,
          "Channel": "Security"
        },
        "EventData": {
          "TargetUserName": "AdministratorsTest"
        }
      },
      "Event_attributes": {
        "xmlns": "http://schemas.microsoft.com/win/2004/08/events/event"
      }
    }"#;

    let rule_node = parse_rule_from_str(rule_str);
    match serde_json::from_str(record_json_str) {
        Ok(record) => {
            assert_eq!(select(&rule_node, &record), false);
        }
        Err(_rec) => {
            assert!(false, "failed to parse json record.");
        }
    }
}

#[test]
fn test_detect_contains1() {
    let rule_str = r#"
    enabled: true
    detection:
        selection:
            Channel: Security
            EventID: 4732
            TargetUserName|contains: "Administrators"
    output: 'user added to local Administrators UserName: %MemberName% SID: %MemberSid%'
    "#;

    let record_json_str = r#"
    {
      "Event": {
        "System": {
          "EventID": 4732,
          "Channel": "Security"
        },
        "EventData": {
          "TargetUserName": "TestAdministratorsTest"
        }
      },
      "Event_attributes": {
        "xmlns": "http://schemas.microsoft.com/win/2004/08/events/event"
      }
    }"#;

    let rule_node = parse_rule_from_str(rule_str);
    match serde_json::from_str(record_json_str) {
        Ok(record) => {
            assert_eq!(select(&rule_node, &record), true);
        }
        Err(_rec) => {
            assert!(false, "failed to parse json record.");
        }
    }
}

#[test]
fn test_detect_contains2() {
    let rule_str = r#"
    enabled: true
    detection:
        selection:
            Channel: Security
            EventID: 4732
            TargetUserName|contains: "Administrators"
    output: 'user added to local Administrators UserName: %MemberName% SID: %MemberSid%'
    "#;

    let record_json_str = r#"
    {
      "Event": {
        "System": {
          "EventID": 4732,
          "Channel": "Security"
        },
        "EventData": {
          "TargetUserName": "Testministrators"
        }
      },
      "Event_attributes": {
        "xmlns": "http://schemas.microsoft.com/win/2004/08/events/event"
      }
    }"#;

    let rule_node = parse_rule_from_str(rule_str);
    match serde_json::from_str(record_json_str) {
        Ok(record) => {
            assert_eq!(select(&rule_node, &record), false);
        }
        Err(_rec) => {
            assert!(false, "failed to parse json record.");
        }
    }
}

#[test]
fn test_use_strfeature_in_or_node() {
    let rule_str = r#"
    enabled: true
    detection:
        selection:
            Channel: 'System'
            EventID: 7040
            param1: 'Windows Event Log'
            param2|startswith:
                - "disa"
                - "aut"
    output: 'Service name : %param1%¥nMessage : Event Log Service Stopped¥nResults: Selective event log manipulation may follow this event.'
    "#;

    let record_json_str = r#"
    {
      "Event": {
        "System": {
          "EventID": 7040,
          "Channel": "System"
        },
        "EventData": {
          "param1": "Windows Event Log",
          "param2": "auto start"
        }
      },
      "Event_attributes": {
        "xmlns": "http://schemas.microsoft.com/win/2004/08/events/event"
      }
    }"#;

    let rule_node = parse_rule_from_str(rule_str);
    match serde_json::from_str(record_json_str) {
        Ok(record) => {
            assert_eq!(select(&rule_node, &record), true);
        }
        Err(_rec) => {
            assert!(false, "failed to parse json record.");
        }
    }
}

#[test]
fn test_detect_undefined_rule_option() {
    let rule_str = r#"
    enabled: true
    detection:
        selection:
            Channel|failed: Security
            EventID: 0
    output: 'Rule parse test'
    "#;
    let mut rule_yaml = YamlLoader::load_from_str(rule_str).unwrap().into_iter();
    let mut rule_node = create_rule(to_yaml(&rule_yaml.next().unwrap()));

    assert_eq!(
        rule_node.init(&csv_files()),
        Err(vec!["Found unknown key option. option: failed".to_string()])
    );
}

#[test]
fn test_detect_not_defined_selection() {
    let rule_str = r#"
    enabled: true
    detection:
    output: 'Rule parse test'
    "#;
    let mut rule_yaml = YamlLoader::load_from_str(rule_str).unwrap().into_iter();
    let mut rule_node = create_rule(to_yaml(&rule_yaml.next().unwrap()));

    assert_eq!(
        rule_node.init(&csv_files()),
        Err(vec!["not found detection node".to_string()])
    );
}

#[test]
fn test_no_condition() {
    let rule_str = r#"
    enabled: true
    detection:
        selection:
            Channel: 'System'
            EventID: 7040
            param1: 'Windows Event Log'
    output: 'Service name : %param1%¥nMessage : Event Log Service Stopped¥nResults: Selective event log manipulation may follow this event.'
    "#;

    let record_json_str = r#"
    {
      "Event": {
        "System": {
          "EventID": 7040,
          "Channel": "System"
        },
        "EventData": {
          "param1": "Windows Event Log",
          "param2": "auto start"
        }
      },
      "Event_attributes": {
        "xmlns": "http://schemas.microsoft.com/win/2004/08/events/event"
      }
    }"#;

    let rule_node = parse_rule_from_str(rule_str);
    match serde_json::from_str(record_json_str) {
        Ok(record) => {
            assert_eq!(select(&rule_node, &record), true);
        }
        Err(_rec) => {
            assert!(false, "failed to parse json record.");
        }
    }
}

#[test]
fn test_no_condition_notdetect() {
    let rule_str = r#"
    enabled: true
    detection:
        selection:
            Channel: 'System'
            EventID: 7041
            param1: 'Windows Event Log'
    output: 'Service name : %param1%¥nMessage : Event Log Service Stopped¥nResults: Selective event log manipulation may follow this event.'
    "#;

    let record_json_str = r#"
    {
      "Event": {
        "System": {
          "EventID": 7040,
          "Channel": "System"
        },
        "EventData": {
          "param1": "Windows Event Log",
          "param2": "auto start"
        }
      },
      "Event_attributes": {
        "xmlns": "http://schemas.microsoft.com/win/2004/08/events/event"
      }
    }"#;

    let rule_node = parse_rule_from_str(rule_str);
    match serde_json::from_str(record_json_str) {
        Ok(record) => {
            assert_eq!(select(&rule_node, &record), false);
        }
        Err(_rec) => {
            assert!(false, "failed to parse json record.");
        }
    }
}

#[test]
fn test_condition_and_detect() {
    let rule_str = r#"
    enabled: true
    detection:
        selection1:
            Channel: 'System'
        selection2:
            EventID: 7040
        selection3:
            param1: 'Windows Event Log'
        condition: selection1 and selection2 and selection3
    output: 'Service name : %param1%¥nMessage : Event Log Service Stopped¥nResults: Selective event log manipulation may follow this event.'
    "#;

    check_select(rule_str, SIMPLE_RECORD_STR, true);
}

#[test]
fn test_condition_and_notdetect() {
    let rule_str = r#"
    enabled: true
    detection:
        selection1:
            Channel: 'Systemn'
        selection2:
            EventID: 7040
        selection3:
            param1: 'Windows Event Log'
        condition: selection1 and selection2 and selection3
    output: 'Service name : %param1%¥nMessage : Event Log Service Stopped¥nResults: Selective event log manipulation may follow this event.'
    "#;

    check_select(rule_str, SIMPLE_RECORD_STR, false);
}

#[test]
fn test_condition_and_notdetect2() {
    let rule_str = r#"
    enabled: true
    detection:
        selection1:
            Channel: 'System'
        selection2:
            EventID: 7041
        selection3:
            param1: 'Windows Event Log'
        condition: selection1 and selection2 and selection3
    output: 'Service name : %param1%¥nMessage : Event Log Service Stopped¥nResults: Selective event log manipulation may follow this event.'
    "#;

    check_select(rule_str, SIMPLE_RECORD_STR, false);
}

#[test]
fn test_condition_and_detect3() {
    let rule_str = r#"
    enabled: true
    detection:
        selection1:
            Channel: 'System'
        selection2:
            EventID: 7040
        selection3:
            param1: 'Windows Event Logn'
        condition: selection1 and selection2 and selection3
    output: 'Service name : %param1%¥nMessage : Event Log Service Stopped¥nResults: Selective event log manipulation may follow this event.'
    "#;

    check_select(rule_str, SIMPLE_RECORD_STR, false);
}

#[test]
fn test_condition_and_notdetect4() {
    let rule_str = r#"
    enabled: true
    detection:
        selection1:
            Channel: 'Systemn'
        selection2:
            EventID: 7040
        selection3:
            param1: 'Windows Event Logn'
        condition: selection1 and selection2 and selection3
    output: 'Service name : %param1%¥nMessage : Event Log Service Stopped¥nResults: Selective event log manipulation may follow this event.'
    "#;

    check_select(rule_str, SIMPLE_RECORD_STR, false);
}

#[test]
fn test_condition_and_notdetect5() {
    let rule_str = r#"
    enabled: true
    detection:
        selection1:
            Channel: 'Systemn'
        selection2:
            EventID: 7041
        selection3:
            param1: 'Windows Event Logn'
        condition: selection1 and selection2 and selection3
    output: 'Service name : %param1%¥nMessage : Event Log Service Stopped¥nResults: Selective event log manipulation may follow this event.'
    "#;

    check_select(rule_str, SIMPLE_RECORD_STR, false);
}

#[test]
fn test_condition_or_detect() {
    let rule_str = r#"
    enabled: true
    detection:
        selection1:
            Channel: 'System'
        selection2:
            EventID: 7040
        selection3:
            param1: 'Windows Event Log'
        condition: selection1 or selection2 or selection3
    output: 'Service name : %param1%¥nMessage : Event Log Service Stopped¥nResults: Selective event log manipulation may follow this event.'
    "#;

    check_select(rule_str, SIMPLE_RECORD_STR, true);
}

#[test]
fn test_condition_or_detect2() {
    let rule_str = r#"
    enabled: true
    detection:
        selection1:
            Channel: 'Systemn'
        selection2:
            EventID: 7040
        selection3:
            param1: 'Windows Event Log'
        condition: selection1 or selection2 or selection3
    output: 'Service name : %param1%¥nMessage : Event Log Service Stopped¥nResults: Selective event log manipulation may follow this event.'
    "#;

    check_select(rule_str, SIMPLE_RECORD_STR, true);
}

#[test]
fn test_condition_or_detect3() {
    let rule_str = r#"
    enabled: true
    detection:
        selection1:
            Channel: 'System'
        selection2:
            EventID: 7041
        selection3:
            param1: 'Windows Event Log'
        condition: selection1 or selection2 or selection3
    output: 'Service name : %param1%¥nMessage : Event Log Service Stopped¥nResults: Selective event log manipulation may follow this event.'
    "#;

    check_select(rule_str, SIMPLE_RECORD_STR, true);
}

#[test]
fn test_condition_or_detect4() {
    let rule_str = r#"
    enabled: true
    detection:
        selection1:
            Channel: 'System'
        selection2:
            EventID: 7040
        selection3:
            param1: 'Windows Event Logn'
        condition: selection1 or selection2 or selection3
    output: 'Service name : %param1%¥nMessage : Event Log Service Stopped¥nResults: Selective event log manipulation may follow this event.'
    "#;

    check_select(rule_str, SIMPLE_RECORD_STR, true);
}

#[test]
fn test_condition_or_detect5() {
    let rule_str = r#"
    enabled: true
    detection:
        selection1:
            Channel: 'Systemn'
        selection2:
            EventID: 7041
        selection3:
            param1: 'Windows Event Log'
        condition: selection1 or selection2 or selection3
    output: 'Service name : %param1%¥nMessage : Event Log Service Stopped¥nResults: Selective event log manipulation may follow this event.'
    "#;

    check_select(rule_str, SIMPLE_RECORD_STR, true);
}

#[test]
fn test_condition_or_detect6() {
    let rule_str = r#"
    enabled: true
    detection:
        selection1:
            Channel: 'System'
        selection2:
            EventID: 7041
        selection3:
            param1: 'Windows Event Logn'
        condition: selection1 or selection2 or selection3
    output: 'Service name : %param1%¥nMessage : Event Log Service Stopped¥nResults: Selective event log manipulation may follow this event.'
    "#;

    check_select(rule_str, SIMPLE_RECORD_STR, true);
}

#[test]
fn test_condition_or_detect7() {
    let rule_str = r#"
    enabled: true
    detection:
        selection1:
            Channel: 'Systemn'
        selection2:
            EventID: 7040
        selection3:
            param1: 'Windows Event Logn'
        condition: selection1 or selection2 or selection3
    output: 'Service name : %param1%¥nMessage : Event Log Service Stopped¥nResults: Selective event log manipulation may follow this event.'
    "#;

    check_select(rule_str, SIMPLE_RECORD_STR, true);
}

#[test]
fn test_condition_or_notdetect() {
    let rule_str = r#"
    enabled: true
    detection:
        selection1:
            Channel: 'Systemn'
        selection2:
            EventID: 7041
        selection3:
            param1: 'Windows Event Logn'
        condition: selection1 or selection2 or selection3
    output: 'Service name : %param1%¥nMessage : Event Log Service Stopped¥nResults: Selective event log manipulation may follow this event.'
    "#;

    check_select(rule_str, SIMPLE_RECORD_STR, false);
}

#[test]
fn test_condition_not_detect() {
    let rule_str = r#"
    enabled: true
    detection:
        selection1:
            Channel: 'Systemn'
        condition: not selection1
    output: 'Service name : %param1%¥nMessage : Event Log Service Stopped¥nResults: Selective event log manipulation may follow this event.'
    "#;

    check_select(rule_str, SIMPLE_RECORD_STR, true);
}

#[test]
fn test_condition_not_notdetect() {
    let rule_str = r#"
    enabled: true
    detection:
        selection1:
            Channel: 'System'
        condition: not selection1
    output: 'Service name : %param1%¥nMessage : Event Log Service Stopped¥nResults: Selective event log manipulation may follow this event.'
    "#;

    check_select(rule_str, SIMPLE_RECORD_STR, false);
}

#[test]
fn test_condition_parenthesis_detect() {
    let rule_str = r#"
    enabled: true
    detection:
        selection1:
            Channel: 'System'
        selection2:
            EventID: 7040
        selection3:
            param1: 'Windows Event Logn'
        condition: selection2 and (selection2 or selection3)
    output: 'Service name : %param1%¥nMessage : Event Log Service Stopped¥nResults: Selective event log manipulation may follow this event.'
    "#;

    check_select(rule_str, SIMPLE_RECORD_STR, true);
}

#[test]
fn test_condition_parenthesis_not_detect() {
    let rule_str = r#"
    enabled: true
    detection:
        selection1:
            Channel: 'System'
        selection2:
            EventID: 7040
        selection3:
            param1: 'Windows Event Logn'
        condition: selection2 and (selection2 and selection3)
    output: 'Service name : %param1%¥nMessage : Event Log Service Stopped¥nResults: Selective event log manipulation may follow this event.'
    "#;

    check_select(rule_str, SIMPLE_RECORD_STR, false);
}

#[test]
fn test_condition_many_parenthesis_detect() {
    let rule_str = r#"
    enabled: true
    detection:
        selection1:
            Channel: 'System'
        selection2:
            EventID: 7040
        selection3:
            param1: 'Windows Event Logn'
        condition: selection2 and (((selection2 or selection3)))
    output: 'Service name : %param1%¥nMessage : Event Log Service Stopped¥nResults: Selective event log manipulation may follow this event.'
    "#;

    check_select(rule_str, SIMPLE_RECORD_STR, true);
}

#[test]
fn test_condition_manyparenthesis_not_detect() {
    let rule_str = r#"
    enabled: true
    detection:
        selection1:
            Channel: 'System'
        selection2:
            EventID: 7040
        selection3:
            param1: 'Windows Event Logn'
        condition: selection2 and ((((selection2 and selection3))))
    output: 'Service name : %param1%¥nMessage : Event Log Service Stopped¥nResults: Selective event log manipulation may follow this event.'
    "#;

    check_select(rule_str, SIMPLE_RECORD_STR, false);
}

#[test]
fn test_condition_notparenthesis_detect() {
    let rule_str = r#"
    enabled: true
    detection:
        selection1:
            Channel: 'System'
        selection2:
            EventID: 7040
        selection3:
            param1: 'Windows Event Logn'
        condition: (selection2 and selection1) and not ((selection2 and selection3))
    output: 'Service name : %param1%¥nMessage : Event Log Service Stopped¥nResults: Selective event log manipulation may follow this event.'
    "#;

    check_select(rule_str, SIMPLE_RECORD_STR, true);
}

#[test]
fn test_condition_notparenthesis_notdetect() {
    let rule_str = r#"
    enabled: true
    detection:
        selection1:
            Channel: 'System'
        selection2:
            EventID: 7040
        selection3:
            param1: 'Windows Event Logn'
        condition: (selection2 and selection1) and not (not(selection2 and selection3))
    output: 'Service name : %param1%¥nMessage : Event Log Service Stopped¥nResults: Selective event log manipulation may follow this event.'
    "#;

    check_select(rule_str, SIMPLE_RECORD_STR, false);
}

#[test]
fn test_condition_manyparenthesis_detect2() {
    let rule_str = r#"
    enabled: true
    detection:
        selection1:
            Channel: 'System'
        selection2:
            EventID: 7040
        selection3:
            param1: 'Windows Event Logn'
        condition: (selection2 and selection1) and (selection2 or selection3)
    output: 'Service name : %param1%¥nMessage : Event Log Service Stopped¥nResults: Selective event log manipulation may follow this event.'
    "#;

    check_select(rule_str, SIMPLE_RECORD_STR, true);
}

#[test]
fn test_condition_manyparenthesis_notdetect2() {
    let rule_str = r#"
    enabled: true
    detection:
        selection1:
            Channel: 'System'
        selection2:
            EventID: 7040
        selection3:
            param1: 'Windows Event Logn'
        condition: (selection2 and selection1) and (selection2 and selection3)
    output: 'Service name : %param1%¥nMessage : Event Log Service Stopped¥nResults: Selective event log manipulation may follow this event.'
    "#;

    check_select(rule_str, SIMPLE_RECORD_STR, false);
}

#[test]
fn test_condition_manyparenthesis_detect3() {
    let rule_str = r#"
    enabled: true
    detection:
        selection1:
            Channel: 'System'
        selection2:
            EventID: 7040
        selection3:
            param1: 'Windows Event Log'
        selection4:
            param2: 'auto start'
        condition: (selection1 and (selection2 and ( selection3 and selection4 )))
    output: 'Service name : %param1%¥nMessage : Event Log Service Stopped¥nResults: Selective event log manipulation may follow this event.'
    "#;

    check_select(rule_str, SIMPLE_RECORD_STR, true);
}

#[test]
fn test_condition_manyparenthesis_notdetect3() {
    let rule_str = r#"
    enabled: true
    detection:
        selection1:
            Channel: 'System'
        selection2:
            EventID: 7040
        selection3:
            param1: 'Windows Event Logn'
        selection4:
            param2: 'auto start'
        condition: (selection1 and (selection2 and ( selection3 and selection4 )))
    output: 'Service name : %param1%¥nMessage : Event Log Service Stopped¥nResults: Selective event log manipulation may follow this event.'
    "#;

    check_select(rule_str, SIMPLE_RECORD_STR, false);
}

#[test]
fn test_condition_manyparenthesis_detect4() {
    let rule_str = r#"
    enabled: true
    detection:
        selection1:
            Channel: 'System'
        selection2:
            EventID: 7040
        selection3:
            param1: 'Windows Event Logn'
        selection4:
            param2: 'auto start'
        condition: (selection1 and (selection2 and ( selection3 or selection4 )))
    output: 'Service name : %param1%¥nMessage : Event Log Service Stopped¥nResults: Selective event log manipulation may follow this event.'
    "#;

    check_select(rule_str, SIMPLE_RECORD_STR, true);
}

#[test]
fn test_condition_manyparenthesis_notdetect4() {
    let rule_str = r#"
    enabled: true
    detection:
        selection1:
            Channel: 'System'
        selection2:
            EventID: 7040
        selection3:
            param1: 'Windows Event Logn'
        selection4:
            param2: 'auto startn'
        condition: (selection1 and (selection2 and ( selection3 or selection4 )))
    output: 'Service name : %param1%¥nMessage : Event Log Service Stopped¥nResults: Selective event log manipulation may follow this event.'
    "#;

    check_select(rule_str, SIMPLE_RECORD_STR, false);
}

#[test]
fn test_rule_parseerror_no_condition() {
    let rule_str = r#"
    enabled: true
    detection:
        selection:
            Channel: 'System'
            EventID: 7041
        selection2:
            param1: 'Windows Event Log'
    output: 'Service name : %param1%¥nMessage : Event Log Service Stopped¥nResults: Selective event log manipulation may follow this event.'
    "#;

    let mut rule_yaml = YamlLoader::load_from_str(rule_str).unwrap().into_iter();
    let mut rule_node = create_rule(to_yaml(&rule_yaml.next().unwrap()));

    assert_eq!(
        rule_node.init(&csv_files()),
        Err(vec![
            "There are no condition node under detection.".to_string()
        ])
    );
}

#[test]
fn test_condition_err_condition_forbit_character() {
    let rule_str = r#"
    enabled: true
    detection:
        selection-1:
            Channel: 'System'
            EventID: 7041
        selection2:
            param1: 'Windows Event Log'
        condition: selection-1 and selection2
    output: 'Service name : %param1%¥nMessage : Event Log Service Stopped¥nResults: Selective event log manipulation may follow this event.'
    "#;

    check_rule_parse_error(
        rule_str,
        vec!["condition parse error has occured. An unusable character was found.".to_string()],
    );
}

#[test]
fn test_condition_err_leftparenthesis_over() {
    let rule_str = r#"
    enabled: true
    detection:
        selection1:
            Channel: 'System'
            EventID: 7041
        selection2:
            param1: 'Windows Event Log'
        condition: selection1 and ((selection2)
    output: 'Service name : %param1%¥nMessage : Event Log Service Stopped¥nResults: Selective event log manipulation may follow this event.'
    "#;

    check_rule_parse_error(
        rule_str,
        vec!["condition parse error has occured. expected ')'. but not found.".to_string()],
    );
}

#[test]
fn test_condition_err_rightparenthesis_over() {
    let rule_str = r#"
    enabled: true
    detection:
        selection1:
            Channel: 'System'
            EventID: 7041
        selection2:
            param1: 'Windows Event Log'
        condition: selection1 and (selection2))
    output: 'Service name : %param1%¥nMessage : Event Log Service Stopped¥nResults: Selective event log manipulation may follow this event.'
    "#;

    check_rule_parse_error(
        rule_str,
        vec!["condition parse error has occured. expected '('. but not found.".to_string()],
    );
}

#[test]
fn test_condition_err_parenthesis_direction_wrong() {
    let rule_str = r#"
    enabled: true
    detection:
        selection1:
            Channel: 'System'
            EventID: 7041
        selection2:
            param1: 'Windows Event Log'
        condition: selection1 and )selection2(
    output: 'Service name : %param1%¥nMessage : Event Log Service Stopped¥nResults: Selective event log manipulation may follow this event.'
    "#;

    check_rule_parse_error(
        rule_str,
        vec!["condition parse error has occured. expected ')'. but not found.".to_string()],
    );
}

#[test]
fn test_condition_err_no_logical() {
    let rule_str = r#"
    enabled: true
    detection:
        selection1:
            Channel: 'System'
            EventID: 7041
        selection2:
            param1: 'Windows Event Log'
        condition: selection1 selection2
    output: 'Service name : %param1%¥nMessage : Event Log Service Stopped¥nResults: Selective event log manipulation may follow this event.'
    "#;

    check_rule_parse_error(rule_str,vec!["condition parse error has occured. unknown error. maybe it\'s because there are multiple name of selection node.".to_string()]);
}

#[test]
fn test_condition_err_first_logical() {
    let rule_str = r#"
    enabled: true
    detection:
        selection1:
            Channel: 'System'
            EventID: 7041
        selection2:
            param1: 'Windows Event Log'
        condition: and selection1 or selection2
    output: 'Service name : %param1%¥nMessage : Event Log Service Stopped¥nResults: Selective event log manipulation may follow this event.'
    "#;

    check_rule_parse_error(
        rule_str,
        vec![
            "condition parse error has occured. illegal Logical Operator(and, or) was found."
                .to_string(),
        ],
    );
}

#[test]
fn test_condition_err_last_logical() {
    let rule_str = r#"
    enabled: true
    detection:
        selection1:
            Channel: 'System'
            EventID: 7041
        selection2:
            param1: 'Windows Event Log'
        condition: selection1 or selection2 or
    output: 'Service name : %param1%¥nMessage : Event Log Service Stopped¥nResults: Selective event log manipulation may follow this event.'
    "#;

    check_rule_parse_error(
        rule_str,
        vec![
            "condition parse error has occured. illegal Logical Operator(and, or) was found."
                .to_string(),
        ],
    );
}

#[test]
fn test_condition_err_consecutive_logical() {
    let rule_str = r#"
    enabled: true
    detection:
        selection1:
            Channel: 'System'
            EventID: 7041
        selection2:
            param1: 'Windows Event Log'
        condition: selection1 or or selection2
    output: 'Service name : %param1%¥nMessage : Event Log Service Stopped¥nResults: Selective event log manipulation may follow this event.'
    "#;

    check_rule_parse_error(rule_str,vec!["condition parse error has occured. The use of logical operator(and, or) was wrong.".to_string()]);
}

#[test]
fn test_condition_err_only_not() {
    let rule_str = r#"
    enabled: true
    detection:
        selection1:
            Channel: 'System'
            EventID: 7041
        selection2:
            param1: 'Windows Event Log'
        condition: selection1 or ( not )
    output: 'Service name : %param1%¥nMessage : Event Log Service Stopped¥nResults: Selective event log manipulation may follow this event.'
    "#;

    check_rule_parse_error(
        rule_str,
        vec!["condition parse error has occured. illegal not was found.".to_string()],
    );
}

#[test]
fn test_condition_err_not_not() {
    let rule_str = r#"
    enabled: true
    detection:
        selection1:
            Channel: 'System'
            EventID: 7041
        selection2:
            param1: 'Windows Event Log'
        condition: selection1 or ( not not )
    output: 'Service name : %param1%¥nMessage : Event Log Service Stopped¥nResults: Selective event log manipulation may follow this event.'
    "#;

    check_rule_parse_error(
        rule_str,
        vec!["condition parse error has occured. not is continuous.".to_string()],
    );
}
