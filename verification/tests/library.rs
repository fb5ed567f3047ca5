use rtk::aws::{
    cfn_stacks_summary, describe_service, ec2_instances_summary, filter_cfn_describe_stacks,
    filter_cfn_list_stacks, filter_ec2_instances, filter_ecs_describe_services,
    filter_ecs_list_services, filter_rds_instances, filter_s3_ls, filter_sts_identity,
    name_of_instance, sts_identity_summary, MAX_ITEMS,
};
use rtk::json::{JsonEntry, JsonNumber, JsonValue};
use rtk::route::{
    command_args, filter_output, generic_args, is_structured_operation, json_args, run,
    s3_ls_args, AwsCommand,
};
use rtk::runner::{
    combined_output, exit_code, filter_input, is_blank, is_whitespace, print_mode, run_step, with_hint,
    PrintMode, RunOptions, RunStep,
};
use rtk::text::{
    join_lines, join_with_overflow, last_segment, lines, push_decimal, push_signed_decimal,
    starts_with, str_eq, truncate_iso_date,
};

fn strings(items: &[&str]) -> Vec<String> {
    items.iter().map(|s| s.to_string()).collect()
}

fn obj(entries: Vec<(&str, JsonValue)>) -> JsonValue {
    JsonValue::Object(
        entries
            .into_iter()
            .map(|(k, v)| JsonEntry { key: k.to_string(), value: v })
            .collect(),
    )
}

fn text(s: &str) -> JsonValue {
    JsonValue::Str(s.to_string())
}

#[test]
fn decimal_of_unsigned_numbers() {
    for (n, expected) in [(0u64, "0"), (7, "7"), (10, "10"), (1234567890, "1234567890")] {
        let mut out = String::from("n=");
        push_decimal(&mut out, n);
        assert_eq!(out, format!("n={}", expected));
    }
    let mut out = String::new();
    push_decimal(&mut out, u64::MAX);
    assert_eq!(out, u64::MAX.to_string());
}

#[test]
fn decimal_of_signed_numbers() {
    for n in [0i64, 3, -42, i64::MAX, i64::MIN] {
        let mut out = String::new();
        push_signed_decimal(&mut out, n);
        assert_eq!(out, n.to_string());
    }
}

#[test]
fn lines_follow_str_lines() {
    for s in ["", "\n", "a", "a\n", "a\r\nb\n", "a\n\nb", "a\r", "a\r\r\n", "\n\n", "x\ny\r\nz"] {
        let expected: Vec<String> = s.lines().map(|l| l.to_string()).collect();
        assert_eq!(lines(s), expected, "input {:?}", s);
    }
}

#[test]
fn join_lines_puts_newlines_between() {
    assert_eq!(join_lines(&strings(&[])), "");
    assert_eq!(join_lines(&strings(&["a"])), "a");
    assert_eq!(join_lines(&strings(&["a", "", "b"])), "a\n\nb");
}

#[test]
fn overflow_note_only_past_the_limit() {
    let items = strings(&["a", "b"]);
    assert_eq!(join_with_overflow(&items, 2, 2, "things"), "a\nb");
    assert_eq!(join_with_overflow(&items, 5, 2, "things"), "a\nb\n... +3 more things");
    assert_eq!(join_with_overflow(&strings(&[]), 0, 20, "x"), "");
}

#[test]
fn last_segment_is_what_rsplit_gives() {
    for s in ["a/b/c", "abc/", "abc", "", "/", "arn:aws:ecs:us-east-1:123:service/cluster/api"] {
        assert_eq!(last_segment(s, '/'), s.rsplit('/').next().unwrap());
    }
}

#[test]
fn iso_dates_are_cut_to_ten_characters() {
    assert_eq!(truncate_iso_date("2024-01-15T10:30:00Z"), "2024-01-15");
    assert_eq!(truncate_iso_date("2024-01-15"), "2024-01-15");
    assert_eq!(truncate_iso_date("2024"), "2024");
    assert_eq!(truncate_iso_date("?"), "?");
}

#[test]
fn prefixes_and_equality() {
    assert!(starts_with("describe-instances", "describe-"));
    assert!(!starts_with("describe", "describe-"));
    assert!(starts_with("x", ""));
    assert!(str_eq("Name", "Name"));
    assert!(!str_eq("Name", "name"));
}

#[test]
fn json_model_accessors() {
    let doc = obj(vec![
        ("a", text("x")),
        ("n", JsonValue::Number(JsonNumber::Int(-3))),
        ("big", JsonValue::Number(JsonNumber::UInt(u64::MAX))),
        ("list", JsonValue::Array(vec![JsonValue::Null, JsonValue::Bool(true)])),
    ]);
    assert_eq!(doc.str_field("a"), Some("x"));
    assert_eq!(doc.str_field("n"), None);
    assert_eq!(doc.str_field("missing"), None);
    assert_eq!(doc.i64_field_or_zero("n"), -3);
    assert_eq!(doc.i64_field_or_zero("big"), 0);
    assert_eq!(doc.i64_field_or_zero("a"), 0);
    assert_eq!(doc.array_field("list").map(|v| v.len()), Some(2));
    assert!(doc.array_field("a").is_none());
    assert!(text("x").get("a").is_none());
    assert_eq!(doc.str_field_or("missing", "?"), "?");
}

#[test]
fn parsed_numbers_read_as_i64_only_in_range() {
    let json = r#"{"services": [
        {"serviceName": "a", "runningCount": -2, "desiredCount": 18446744073709551615},
        {"serviceName": "b", "runningCount": 1.5, "desiredCount": 9223372036854775807, "status": "ok", "launchType": "EC2"}
    ]}"#;
    assert_eq!(
        filter_ecs_describe_services(json).unwrap(),
        "a ? -2/0 (?)\nb ok 0/9223372036854775807 (EC2)"
    );
    assert!(filter_ecs_describe_services("{\"services\": [").is_none());
    assert_eq!(
        filter_sts_identity(r#"{"Account": {"x": 1}, "Arn": "arn", "Account2": "no"}"#).unwrap(),
        "AWS: ? arn"
    );
}

#[test]
fn sts_summary_of_a_model() {
    let doc = obj(vec![("Account", text("1")), ("Arn", JsonValue::Null)]);
    assert_eq!(sts_identity_summary(&doc), "AWS: 1 ?");
    assert_eq!(filter_sts_identity("[]").unwrap(), "AWS: ? ?");
}

#[test]
fn ec2_summary_edge_cases() {
    assert_eq!(filter_ec2_instances(r#"{"Reservations": []}"#).unwrap(), "EC2: 0 instances");
    assert!(filter_ec2_instances(r#"{"Reservations": {}}"#).is_none());
    assert!(filter_ec2_instances(r#"{}"#).is_none());
    let reservations: Vec<String> = (0..25)
        .map(|i| format!(r#"{{"Instances": [{{"InstanceId": "i-{}"}}]}}"#, i))
        .collect();
    let json = format!(r#"{{"Reservations": [{}, {{"Instances": 3}}]}}"#, reservations.join(","));
    let out = filter_ec2_instances(&json).unwrap();
    let shown: Vec<&str> = out.lines().collect();
    assert_eq!(shown.len(), 1 + MAX_ITEMS + 1);
    assert_eq!(shown[0], "EC2: 25 instances");
    assert_eq!(shown[1], "  i-0 ? ? - (-)");
    assert_eq!(shown[21], "  ... +5 more");
}

#[test]
fn ec2_name_tag_is_the_first_tag_keyed_name() {
    let inst = obj(vec![(
        "Tags",
        JsonValue::Array(vec![
            obj(vec![("Key", text("Team")), ("Value", text("core"))]),
            obj(vec![("Key", text("Name")), ("Value", JsonValue::Null)]),
            obj(vec![("Key", text("Name")), ("Value", text("later"))]),
        ]),
    )]);
    assert_eq!(name_of_instance(&inst), "-");
    let doc = obj(vec![(
        "Reservations",
        JsonValue::Array(vec![obj(vec![("Instances", JsonValue::Array(vec![inst]))])]),
    )]);
    assert_eq!(ec2_instances_summary(&doc).unwrap(), "EC2: 1 instances\n  ? ? ? - (-)");
}

#[test]
fn ecs_short_names_and_overflow() {
    let arns: Vec<String> =
        (1..=25).map(|i| format!("\"arn:aws:ecs:r:1:service/c/svc-{}\"", i)).collect();
    let json = format!(r#"{{"serviceArns": [{}, 7]}}"#, arns.join(","));
    let out = filter_ecs_list_services(&json).unwrap();
    assert!(out.starts_with("svc-1\nsvc-2\n"));
    assert!(out.ends_with("svc-20\n... +6 more services"));
    let odd = filter_ecs_list_services(r#"{"serviceArns": [7, "plain", "a/"]}"#).unwrap();
    assert_eq!(odd, "?\nplain\n");
}

#[test]
fn ecs_service_counts() {
    let svc = obj(vec![
        ("serviceName", text("api")),
        ("runningCount", JsonValue::Number(JsonNumber::Int(-1))),
        ("desiredCount", JsonValue::Number(JsonNumber::Float)),
    ]);
    assert_eq!(describe_service(&svc), "api ? -1/0 (?)");
    assert!(filter_ecs_describe_services(r#"{"services": null}"#).is_none());
}

#[test]
fn rds_missing_fields() {
    assert_eq!(filter_rds_instances(r#"{"DBInstances": [{}]}"#).unwrap(), "? ? ? ? ?");
    assert_eq!(filter_rds_instances(r#"{"DBInstances": []}"#).unwrap(), "");
}

#[test]
fn cfn_dates_fall_back() {
    let out = filter_cfn_list_stacks(
        r#"{"StackSummaries": [{"StackName": "a", "CreationTime": 5}, {"StackName": "b", "LastUpdatedTime": 1, "CreationTime": "2023-03-03T00:00:00Z"}]}"#,
    )
    .unwrap();
    assert_eq!(out, "a ? ?\nb ? 2023-03-03");
}

#[test]
fn cfn_describe_counts_stacks_not_lines() {
    let stacks: Vec<String> = (0..21)
        .map(|i| format!(r#"{{"StackName": "s{}", "Outputs": [{{"OutputKey": "k"}}]}}"#, i))
        .collect();
    let json = format!(r#"{{"Stacks": [{}]}}"#, stacks.join(","));
    let out = filter_cfn_describe_stacks(&json).unwrap();
    let shown: Vec<&str> = out.lines().collect();
    assert_eq!(shown.len(), 41);
    assert_eq!(shown[0], "s0 ? ?");
    assert_eq!(shown[1], "  k=?");
    assert_eq!(shown[40], "... +1 more stacks");
    let doc = obj(vec![("Stacks", JsonValue::Array(vec![]))]);
    assert_eq!(cfn_stacks_summary(&doc).unwrap(), "");
}

#[test]
fn short_listing_is_unchanged() {
    assert_eq!(filter_s3_ls("a\nb\n"), "a\nb");
    assert_eq!(filter_s3_ls(""), "");
    assert_eq!(filter_s3_ls("a\r\nb"), "a\nb");
    let long: Vec<String> = (0..31).map(|i| format!("l{}", i)).collect();
    let out = filter_s3_ls(&long.join("\n"));
    assert!(out.ends_with("l29\n... +1 more items"));
}

#[test]
fn routing_to_handlers() {
    let plan = run("sts", &strings(&["get-caller-identity", "--profile", "dev"]));
    assert_eq!(plan.command, AwsCommand::StsIdentity);
    assert_eq!(plan.args, strings(&["--profile", "dev"]));
    assert_eq!(plan.full_sub, "sts get-caller-identity --profile dev");
    let plan = run("s3", &strings(&["cp", "a", "b"]));
    assert_eq!(plan.command, AwsCommand::Generic);
    assert_eq!(plan.args, strings(&["cp", "a", "b"]));
    let plan = run("sts", &strings(&[]));
    assert_eq!(plan.command, AwsCommand::Generic);
    assert_eq!(plan.full_sub, "sts");
    for (sub, op, cmd) in [
        ("s3", "ls", AwsCommand::S3Ls),
        ("ec2", "describe-instances", AwsCommand::Ec2Describe),
        ("ecs", "list-services", AwsCommand::EcsListServices),
        ("ecs", "describe-services", AwsCommand::EcsDescribeServices),
        ("rds", "describe-db-instances", AwsCommand::RdsDescribe),
        ("cloudformation", "list-stacks", AwsCommand::CfnListStacks),
        ("cloudformation", "describe-stacks", AwsCommand::CfnDescribeStacks),
        ("ec2", "list-services", AwsCommand::Generic),
    ] {
        assert_eq!(run(sub, &strings(&[op])).command, cmd);
    }
}

#[test]
fn structured_operations() {
    assert!(is_structured_operation(&strings(&["describe-vpcs"])));
    assert!(is_structured_operation(&strings(&["list-buckets", "x"])));
    assert!(is_structured_operation(&strings(&["get-object"])));
    assert!(!is_structured_operation(&strings(&["cp", "describe-x"])));
    assert!(!is_structured_operation(&strings(&[])));
}

#[test]
fn generic_arguments() {
    assert_eq!(
        generic_args("ec2", &strings(&["describe-vpcs"])),
        strings(&["ec2", "describe-vpcs", "--output", "json"])
    );
    assert_eq!(
        generic_args("ec2", &strings(&["describe-vpcs", "--output", "table"])),
        strings(&["ec2", "describe-vpcs", "--output", "table"])
    );
    assert_eq!(generic_args("s3", &strings(&["cp", "a", "b"])), strings(&["s3", "cp", "a", "b"]));
}

#[test]
fn json_arguments_replace_the_output_format() {
    assert_eq!(
        json_args(&["ec2", "describe-instances"], &strings(&["--output", "table", "--region", "x"])),
        strings(&["ec2", "describe-instances", "--region", "x", "--output", "json"])
    );
    assert_eq!(
        json_args(&["rds", "describe-db-instances"], &strings(&["--region", "x", "--output"])),
        strings(&["rds", "describe-db-instances", "--region", "x", "--output", "json"])
    );
    assert_eq!(
        json_args(&["a"], &strings(&["--output", "--output", "--output", "text", "z"])),
        strings(&["a", "z", "--output", "json"])
    );
    assert_eq!(s3_ls_args(&strings(&["s3://b"])), strings(&["s3", "ls", "s3://b"]));
    assert_eq!(
        command_args(AwsCommand::CfnListStacks, "cloudformation", &strings(&[])),
        strings(&["cloudformation", "list-stacks", "--output", "json"])
    );
    assert_eq!(
        command_args(AwsCommand::Generic, "iam", &strings(&["list-users"])),
        strings(&["iam", "list-users", "--output", "json"])
    );
}

#[test]
fn handler_output_falls_back_to_raw() {
    assert_eq!(filter_output(AwsCommand::StsIdentity, "oops").unwrap(), "oops");
    assert_eq!(filter_output(AwsCommand::Ec2Describe, "{}").unwrap(), "{}");
    assert_eq!(
        filter_output(AwsCommand::RdsDescribe, r#"{"DBInstances": [{"Engine": "pg"}]}"#).unwrap(),
        "? pg ? ? ?"
    );
    assert_eq!(filter_output(AwsCommand::S3Ls, "a\n").unwrap(), "a");
    assert!(filter_output(AwsCommand::Generic, "{}").is_none());
}

#[test]
fn run_options_builders() {
    let opts = RunOptions::with_tee("git");
    assert_eq!(opts.tee_label, Some("git"));
    assert!(!opts.filter_stdout_only && !opts.skip_filter_on_failure && !opts.no_trailing_newline);
    let opts = RunOptions::stdout_only().early_exit_on_failure().no_trailing_newline().tee("x");
    assert_eq!(opts.tee_label, Some("x"));
    assert!(opts.filter_stdout_only && opts.skip_filter_on_failure && opts.no_trailing_newline);
    let opts = RunOptions::default();
    assert!(opts.tee_label.is_none() && !opts.filter_stdout_only);
}

#[test]
fn run_steps() {
    let strict = RunOptions::default().early_exit_on_failure();
    assert_eq!(run_step(&strict, 1, "boom"), RunStep::EarlyExit { echo_stderr: true });
    assert_eq!(run_step(&strict, 2, " \n"), RunStep::EarlyExit { echo_stderr: false });
    assert_eq!(
        run_step(&strict, 0, "warn"),
        RunStep::Filter { stdout_only: false, echo_stderr: false }
    );
    let out_only = RunOptions::stdout_only();
    assert_eq!(
        run_step(&out_only, 1, "warn"),
        RunStep::Filter { stdout_only: true, echo_stderr: true }
    );
    assert_eq!(filter_input(&out_only, "out", "out\nerr"), "out");
    assert_eq!(filter_input(&strict, "out", "out\nerr"), "out\nerr");
}

#[test]
fn blank_text_and_whitespace() {
    for c in ['\t', '\n', '\r', ' ', '\u{85}', '\u{a0}', '\u{2003}', '\u{3000}', '\u{2028}'] {
        assert!(is_whitespace(c) && c.is_whitespace());
    }
    for c in ['a', '\u{200b}', '\u{180e}', '0'] {
        assert_eq!(is_whitespace(c), c.is_whitespace());
    }
    assert!(is_blank(""));
    assert!(is_blank(" \t\n\u{3000}"));
    assert!(!is_blank(" x "));
}

#[test]
fn printing_helpers() {
    assert_eq!(combined_output("out", "err"), "out\nerr");
    assert_eq!(with_hint("short", Some("[full: x]")), "short\n[full: x]");
    assert_eq!(with_hint("short", None), "short");
    assert_eq!(print_mode(&RunOptions::with_tee("l").no_trailing_newline()), PrintMode::WithHint("l"));
    assert_eq!(print_mode(&RunOptions::default().no_trailing_newline()), PrintMode::NoNewline);
    assert_eq!(print_mode(&RunOptions::default()), PrintMode::Line);
}

#[test]
fn exit_codes_keep_signals() {
    assert_eq!(exit_code(Some(0), None), 0);
    assert_eq!(exit_code(Some(3), Some(9)), 3);
    assert_eq!(exit_code(None, Some(9)), 137);
    assert_eq!(exit_code(None, None), 1);
    assert_eq!(exit_code(None, Some(i32::MAX)), 1);
}

#[test]
fn summary_lines_read_back() {
    let json = r#"{"Reservations": [{"Instances": [{"InstanceId": "i-1"}, {"InstanceId": "i-2"}]}]}"#;
    let out = filter_ec2_instances(json).unwrap();
    let read: Vec<&str> = out.lines().collect();
    assert_eq!(read, vec!["EC2: 2 instances", "  i-1 ? ? - (-)", "  i-2 ? ? - (-)"]);
    assert!(!out.ends_with('\n'));
    let listing: Vec<String> = (0..40).map(|i| format!("b{}", i)).collect();
    let out = filter_s3_ls(&(listing.join("\n") + "\n"));
    assert_eq!(out.lines().count(), 31);
    assert!(out.lines().zip(listing.iter()).take(30).all(|(a, b)| a == b));
    assert_eq!(filter_s3_ls("a\n\n"), "a\n");
    assert_eq!(filter_s3_ls("a\n\n").lines().collect::<Vec<_>>(), vec!["a"]);
}
