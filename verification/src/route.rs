//! Which handler an `aws` invocation goes to, and the argument lists that
//! the handlers pass to the `aws` program.

use vstd::prelude::*;
use crate::aws::{
    cfn_describe_report, cfn_list_report, ec2_report, ecs_describe_report, ecs_list_report,
    filter_cfn_describe_stacks, filter_cfn_list_stacks, filter_ec2_instances,
    filter_ecs_describe_services, filter_ecs_list_services, filter_rds_instances,
    filter_s3_ls, filter_sts_identity, rds_report, s3_listing, sts_summary,
};
use crate::json::json_parse;
use crate::text::{
    free_of, joined_with, law_split_joined_with, lemma_views_push, push_str, split_on, starts_with,
    str_eq, views,
};

verus! {

/// The handlers of `aws` subcommands.
#[derive(Debug, Clone, Copy, PartialEq, Eq, Structural)]
pub enum AwsCommand {
    /// `sts get-caller-identity`
    StsIdentity,
    /// `s3 ls`
    S3Ls,
    /// `ec2 describe-instances`
    Ec2Describe,
    /// `ecs list-services`
    EcsListServices,
    /// `ecs describe-services`
    EcsDescribeServices,
    /// `rds describe-db-instances`
    RdsDescribe,
    /// `cloudformation list-stacks`
    CfnListStacks,
    /// `cloudformation describe-stacks`
    CfnDescribeStacks,
    /// Every other subcommand.
    Generic,
}

/// Where an invocation goes and what it passes on.
pub struct AwsRun {
    /// The handler.
    pub command: AwsCommand,
    /// The arguments handed to the handler: those after the operation for a
    /// specialized handler, all of them for the generic one.
    pub args: Vec<String>,
    /// The subcommand and its arguments, as shown to the user.
    pub full_sub: String,
}

/// The handler for a subcommand and its first argument.
pub open spec fn route_of(sub: Seq<char>, args: Seq<Seq<char>>) -> AwsCommand {
    if args.len() == 0 {
        AwsCommand::Generic
    } else if sub == "sts"@ && args[0] == "get-caller-identity"@ {
        AwsCommand::StsIdentity
    } else if sub == "s3"@ && args[0] == "ls"@ {
        AwsCommand::S3Ls
    } else if sub == "ec2"@ && args[0] == "describe-instances"@ {
        AwsCommand::Ec2Describe
    } else if sub == "ecs"@ && args[0] == "list-services"@ {
        AwsCommand::EcsListServices
    } else if sub == "ecs"@ && args[0] == "describe-services"@ {
        AwsCommand::EcsDescribeServices
    } else if sub == "rds"@ && args[0] == "describe-db-instances"@ {
        AwsCommand::RdsDescribe
    } else if sub == "cloudformation"@ && args[0] == "list-stacks"@ {
        AwsCommand::CfnListStacks
    } else if sub == "cloudformation"@ && args[0] == "describe-stacks"@ {
        AwsCommand::CfnDescribeStacks
    } else {
        AwsCommand::Generic
    }
}

/// Words joined with a single space between consecutive ones.
pub open spec fn words_joined(words: Seq<Seq<char>>) -> Seq<char>
    decreases words.len(),
{
    if words.len() == 0 {
        Seq::empty()
    } else if words.len() == 1 {
        words[0]
    } else {
        words_joined(words.drop_last()) + " "@ + words.last()
    }
}

/// The subcommand, followed by its arguments when there are any.
pub open spec fn full_sub_of(sub: Seq<char>, args: Seq<Seq<char>>) -> Seq<char> {
    if args.len() == 0 {
        sub
    } else {
        sub + " "@ + words_joined(args)
    }
}

/// Copies a list of strings.
pub fn copy_strings(items: &[String], from: usize) -> (res: Vec<String>)
    requires
        from <= items@.len(),
    ensures
        views(res@) == views(items@).skip(from as int),
{
    let mut res: Vec<String> = Vec::new();
    let mut i = from;
    while i < items.len()
        invariant
            from <= i <= items@.len(),
            views(res@) == views(items@).subrange(from as int, i as int),
        decreases items@.len() - i,
    {
        let s = items[i].clone();
        proof {
            lemma_views_push(res@, s);
        }
        res.push(s);
        i = i + 1;
        assert(views(items@).subrange(from as int, i as int) =~= views(items@).subrange(
            from as int,
            i - 1,
        ).push(items@[i - 1]@));
    }
    assert(views(items@).subrange(from as int, items@.len() as int) =~= views(items@).skip(
        from as int,
    ));
    res
}

/// Joins words with single spaces.
pub fn join_words(words: &[String]) -> (res: String)
    ensures
        res@ == words_joined(views(words@)),
{
    let mut res = String::new();
    let mut i: usize = 0;
    while i < words.len()
        invariant
            i <= words@.len(),
            res@ == words_joined(views(words@).take(i as int)),
        decreases words@.len() - i,
    {
        if i > 0 {
            push_str(&mut res, " ");
        }
        push_str(&mut res, words[i].as_str());
        i = i + 1;
        assert(views(words@).take(i as int).drop_last() =~= views(words@).take(i - 1));
    }
    assert(views(words@).take(words@.len() as int) =~= views(words@));
    res
}

/// Decides which handler runs `aws <subcommand> <args>`: the eight
/// specialized ones match the subcommand and the first argument; everything
/// else goes to the generic handler.
pub fn run(subcommand: &str, args: &[String]) -> (plan: AwsRun)
    ensures
        plan.command == route_of(subcommand@, views(args@)),
        plan.command == AwsCommand::Generic ==> views(plan.args@) == views(args@),
        plan.command != AwsCommand::Generic ==> views(plan.args@) == views(args@).skip(1),
        plan.full_sub@ == full_sub_of(subcommand@, views(args@)),
{
    let full_sub = if args.len() == 0 {
        subcommand.to_owned()
    } else {
        let mut s = subcommand.to_owned();
        push_str(&mut s, " ");
        let rest = join_words(args);
        push_str(&mut s, rest.as_str());
        s
    };
    let command = if args.len() == 0 {
        AwsCommand::Generic
    } else {
        let op = args[0].as_str();
        if str_eq(subcommand, "sts") && str_eq(op, "get-caller-identity") {
            AwsCommand::StsIdentity
        } else if str_eq(subcommand, "s3") && str_eq(op, "ls") {
            AwsCommand::S3Ls
        } else if str_eq(subcommand, "ec2") && str_eq(op, "describe-instances") {
            AwsCommand::Ec2Describe
        } else if str_eq(subcommand, "ecs") && str_eq(op, "list-services") {
            AwsCommand::EcsListServices
        } else if str_eq(subcommand, "ecs") && str_eq(op, "describe-services") {
            AwsCommand::EcsDescribeServices
        } else if str_eq(subcommand, "rds") && str_eq(op, "describe-db-instances") {
            AwsCommand::RdsDescribe
        } else if str_eq(subcommand, "cloudformation") && str_eq(op, "list-stacks") {
            AwsCommand::CfnListStacks
        } else if str_eq(subcommand, "cloudformation") && str_eq(op, "describe-stacks") {
            AwsCommand::CfnDescribeStacks
        } else {
            AwsCommand::Generic
        }
    };
    let handler_args = match command {
        AwsCommand::Generic => copy_strings(args, 0),
        _ => copy_strings(args, 1),
    };
    proof {
        assert(views(args@).skip(0) =~= views(args@));
    }
    AwsRun { command, args: handler_args, full_sub }
}

/// Whether an operation prints structured JSON: its name begins with
/// "describe-", "list-" or "get-".
pub open spec fn structured_operation(args: Seq<Seq<char>>) -> bool {
    args.len() > 0 && ("describe-"@.is_prefix_of(args[0]) || "list-"@.is_prefix_of(args[0])
        || "get-"@.is_prefix_of(args[0]))
}

/// Returns true for operations that return structured JSON (describe-*,
/// list-*, get-*). Mutating or transfer operations (s3 cp, s3 sync, ...)
/// print plain text progress and do not accept `--output json`.
pub fn is_structured_operation(args: &[String]) -> (res: bool)
    ensures
        res == structured_operation(views(args@)),
{
    if args.len() == 0 {
        return false;
    }
    let op = args[0].as_str();
    starts_with(op, "describe-") || starts_with(op, "list-") || starts_with(op, "get-")
}

/// The two words that ask `aws` for JSON output.
pub open spec fn json_output_flag() -> Seq<Seq<char>> {
    seq!["--output"@, "json"@]
}

/// The arguments of the generic handler: the subcommand, the arguments as
/// given, and `--output json` when no output format was given and the
/// operation prints structured JSON.
pub open spec fn generic_args_of(sub: Seq<char>, args: Seq<Seq<char>>) -> Seq<Seq<char>> {
    if !args.contains("--output"@) && structured_operation(args) {
        seq![sub] + args + json_output_flag()
    } else {
        seq![sub] + args
    }
}

/// Appends a string slice, as an owned string, to `out`.
fn push_word(out: &mut Vec<String>, word: &str)
    ensures
        views(final(out)@) == views(old(out)@).push(word@),
{
    let w = word.to_owned();
    proof {
        lemma_views_push(out@, w);
    }
    out.push(w);
}

/// The argument list that the generic handler passes to `aws`.
pub fn generic_args(subcommand: &str, args: &[String]) -> (res: Vec<String>)
    ensures
        views(res@) == generic_args_of(subcommand@, views(args@)),
{
    let mut res: Vec<String> = Vec::new();
    push_word(&mut res, subcommand);
    let mut has_output_flag = false;
    let mut i: usize = 0;
    while i < args.len()
        invariant
            i <= args@.len(),
            views(res@) == seq![subcommand@] + views(args@).take(i as int),
            has_output_flag == views(args@).take(i as int).contains("--output"@),
        decreases args@.len() - i,
    {
        let ghost before = views(args@).take(i as int);
        if str_eq(args[i].as_str(), "--output") {
            has_output_flag = true;
        }
        push_word(&mut res, args[i].as_str());
        i = i + 1;
        assert(views(args@).take(i as int) =~= before.push(args@[i - 1]@));
        assert(views(args@).take(i as int).contains("--output"@) == (before.contains("--output"@)
            || args@[i - 1]@ == "--output"@)) by {
            let now = views(args@).take(i as int);
            if args@[i - 1]@ == "--output"@ {
                assert(now[i - 1] == "--output"@);
            }
            if before.contains("--output"@) {
                let k = choose|k: int| 0 <= k < before.len() && before[k] == "--output"@;
                assert(now[k] == "--output"@);
            }
        }
    }
    assert(views(args@).take(args@.len() as int) =~= views(args@));
    if !has_output_flag && is_structured_operation(args) {
        push_word(&mut res, "--output");
        push_word(&mut res, "json");
        assert(views(res@) =~= seq![subcommand@] + views(args@) + json_output_flag());
    }
    res
}

/// The arguments without any `--output` flag and the word after it.
pub open spec fn without_output_flag(args: Seq<Seq<char>>) -> Seq<Seq<char>>
    decreases args.len(),
{
    if args.len() == 0 {
        Seq::empty()
    } else if args[0] == "--output"@ {
        if args.len() == 1 {
            Seq::empty()
        } else {
            without_output_flag(args.skip(2))
        }
    } else {
        seq![args[0]] + without_output_flag(args.drop_first())
    }
}

/// The views of a list of string slices.
pub open spec fn str_views(words: Seq<&str>) -> Seq<Seq<char>> {
    words.map_values(|w: &str| w@)
}

/// The arguments of a specialized handler: the fixed subcommand words, the
/// user's arguments without any output format, and `--output json`.
pub open spec fn json_args_of(sub_args: Seq<Seq<char>>, extra: Seq<Seq<char>>) -> Seq<Seq<char>> {
    sub_args + without_output_flag(extra) + json_output_flag()
}

/// The argument list that a specialized handler passes to `aws`: any
/// `--output <format>` the user gave is replaced by `--output json`.
pub fn json_args(sub_args: &[&str], extra_args: &[String]) -> (res: Vec<String>)
    ensures
        views(res@) == json_args_of(str_views(sub_args@), views(extra_args@)),
{
    let mut res: Vec<String> = Vec::new();
    let mut i: usize = 0;
    while i < sub_args.len()
        invariant
            i <= sub_args@.len(),
            views(res@) == str_views(sub_args@).take(i as int),
        decreases sub_args@.len() - i,
    {
        push_word(&mut res, sub_args[i]);
        i = i + 1;
        assert(str_views(sub_args@).take(i as int) =~= str_views(sub_args@).take(i - 1).push(
            sub_args@[i - 1]@,
        ));
    }
    assert(str_views(sub_args@).take(sub_args@.len() as int) =~= str_views(sub_args@));
    let ghost head = views(res@);
    let ghost extra = views(extra_args@);
    let mut skip_next = false;
    let mut j: usize = 0;
    assert(extra.skip(0) =~= extra);
    while j < extra_args.len()
        invariant
            j <= extra_args@.len(),
            extra == views(extra_args@),
            head == str_views(sub_args@),
            ({
                let rest = extra.skip(j as int);
                let pending = if skip_next {
                    if rest.len() == 0 {
                        Seq::empty()
                    } else {
                        without_output_flag(rest.drop_first())
                    }
                } else {
                    without_output_flag(rest)
                };
                head + without_output_flag(extra) == views(res@) + pending
            }),
        decreases extra_args@.len() - j,
    {
        let ghost rest = extra.skip(j as int);
        assert(rest.drop_first() =~= extra.skip(j + 1));
        assert(rest[0] == extra_args@[j as int]@);
        if skip_next {
            skip_next = false;
        } else if str_eq(extra_args[j].as_str(), "--output") {
            skip_next = true;
            proof {
                if rest.len() > 1 {
                    assert(rest.skip(2) =~= extra.skip(j + 1).drop_first());
                }
            }
        } else {
            let ghost before = views(res@);
            push_word(&mut res, extra_args[j].as_str());
            assert(before + without_output_flag(rest) =~= views(res@) + without_output_flag(
                rest.drop_first(),
            ));
        }
        j = j + 1;
    }
    assert(extra.skip(j as int) =~= Seq::<Seq<char>>::empty());
    assert(views(res@) =~= head + without_output_flag(extra));
    push_word(&mut res, "--output");
    push_word(&mut res, "json");
    assert(views(res@) =~= json_args_of(str_views(sub_args@), extra));
    res
}

/// The arguments without output flags hold no `--output`.
pub proof fn lemma_no_output_flag_left(args: Seq<Seq<char>>)
    ensures
        !without_output_flag(args).contains("--output"@),
    decreases args.len(),
{
    if args.len() > 0 {
        if args[0] == "--output"@ {
            if args.len() > 1 {
                lemma_no_output_flag_left(args.skip(2));
            }
        } else {
            let rest = without_output_flag(args.drop_first());
            lemma_no_output_flag_left(args.drop_first());
            assert(!(seq![args[0]] + rest).contains("--output"@)) by {
                if (seq![args[0]] + rest).contains("--output"@) {
                    let k = choose|k: int|
                        0 <= k < rest.len() + 1 && (seq![args[0]] + rest)[k] == "--output"@;
                    if k > 0 {
                        assert(rest[k - 1] == "--output"@);
                    }
                }
            }
        }
    }
}

/// A specialized handler asks for JSON exactly once: whatever output format
/// the user gave is dropped, and the list ends with `--output json`.
pub proof fn law_json_args_single_output_flag(sub_args: Seq<Seq<char>>, extra: Seq<Seq<char>>)
    requires
        !sub_args.contains("--output"@),
    ensures
        ({
            let all = json_args_of(sub_args, extra);
            &&& all.len() >= 2
            &&& all[all.len() - 2] == "--output"@
            &&& all[all.len() - 1] == "json"@
            &&& forall|i: int| 0 <= i < all.len() - 2 ==> all[i] != "--output"@
        }),
{
    let kept = without_output_flag(extra);
    lemma_no_output_flag_left(extra);
    let all = json_args_of(sub_args, extra);
    assert forall|i: int| 0 <= i < all.len() - 2 implies all[i] != "--output"@ by {
        if i < sub_args.len() {
            assert(all[i] == sub_args[i]);
        } else {
            assert(all[i] == kept[i - sub_args.len()]);
        }
    }
}

/// A specialized handler passes on, in order, every argument of the user that
/// is neither `--output` nor the word right after it: arguments without any
/// `--output` go through unchanged; and an `--output <format>` pair is taken
/// out wherever it stands, the rest kept around it.
pub proof fn law_json_args_keep_other_arguments(
    sub_args: Seq<Seq<char>>,
    before: Seq<Seq<char>>,
    format: Seq<char>,
    after: Seq<Seq<char>>,
)
    ensures
        !before.contains("--output"@) ==> without_output_flag(before) == before,
        !before.contains("--output"@) ==> json_args_of(sub_args, before) == sub_args + before
            + json_output_flag(),
        !before.contains("--output"@) ==> without_output_flag(
            before + seq!["--output"@, format] + after,
        ) == before + without_output_flag(after),
    decreases before.len(),
{
    if !before.contains("--output"@) && before.len() > 0 {
        let rest = before.drop_first();
        assert(!rest.contains("--output"@)) by {
            if rest.contains("--output"@) {
                let k = choose|k: int| 0 <= k < rest.len() && rest[k] == "--output"@;
                assert(before[k + 1] == "--output"@);
            }
        }
        assert(before[0] != "--output"@) by {
            if before[0] == "--output"@ {
                assert(before.contains("--output"@));
            }
        }
        law_json_args_keep_other_arguments(sub_args, rest, format, after);
        assert(seq![before[0]] + rest =~= before);
        let whole = before + seq!["--output"@, format] + after;
        assert(whole[0] == before[0]);
        assert(whole.drop_first() =~= rest + seq!["--output"@, format] + after);
        assert(seq![before[0]] + (rest + without_output_flag(after)) =~= before
            + without_output_flag(after));
    } else if !before.contains("--output"@) {
        let whole = before + seq!["--output"@, format] + after;
        assert(whole =~= seq!["--output"@, format] + after);
        assert(whole.skip(2) =~= after);
        assert(before + without_output_flag(after) =~= without_output_flag(after));
    }
}

/// The generic handler passes the user's arguments on unchanged, and adds
/// `--output json` only to structured operations that name no output format.
pub proof fn law_generic_args_preserved(sub: Seq<char>, args: Seq<Seq<char>>)
    ensures
        generic_args_of(sub, args).take(args.len() as int + 1) == seq![sub] + args,
        generic_args_of(sub, args).len() > args.len() + 1 <==> (!args.contains("--output"@)
            && structured_operation(args)),
        !structured_operation(args) ==> generic_args_of(sub, args) == seq![sub] + args,
{
    let base = seq![sub] + args;
    assert(base.take(args.len() as int + 1) =~= base);
    assert((base + json_output_flag()).take(args.len() as int + 1) =~= base);
}

/// The arguments of the `s3 ls` handler, which prints text and takes the
/// user's arguments as given.
pub open spec fn s3_ls_args_of(extra: Seq<Seq<char>>) -> Seq<Seq<char>> {
    seq!["s3"@, "ls"@] + extra
}

/// The argument list that the `s3 ls` handler passes to `aws`.
pub fn s3_ls_args(extra_args: &[String]) -> (res: Vec<String>)
    ensures
        views(res@) == s3_ls_args_of(views(extra_args@)),
{
    let mut res: Vec<String> = Vec::new();
    push_word(&mut res, "s3");
    push_word(&mut res, "ls");
    let mut i: usize = 0;
    while i < extra_args.len()
        invariant
            i <= extra_args@.len(),
            views(res@) == seq!["s3"@, "ls"@] + views(extra_args@).take(i as int),
        decreases extra_args@.len() - i,
    {
        push_word(&mut res, extra_args[i].as_str());
        i = i + 1;
        assert(views(extra_args@).take(i as int) =~= views(extra_args@).take(i - 1).push(
            extra_args@[i - 1]@,
        ));
    }
    assert(views(extra_args@).take(extra_args@.len() as int) =~= views(extra_args@));
    res
}

/// The words that name the operation of a specialized handler.
pub open spec fn operation_words(command: AwsCommand) -> Seq<Seq<char>> {
    match command {
        AwsCommand::StsIdentity => seq!["sts"@, "get-caller-identity"@],
        AwsCommand::S3Ls => seq!["s3"@, "ls"@],
        AwsCommand::Ec2Describe => seq!["ec2"@, "describe-instances"@],
        AwsCommand::EcsListServices => seq!["ecs"@, "list-services"@],
        AwsCommand::EcsDescribeServices => seq!["ecs"@, "describe-services"@],
        AwsCommand::RdsDescribe => seq!["rds"@, "describe-db-instances"@],
        AwsCommand::CfnListStacks => seq!["cloudformation"@, "list-stacks"@],
        AwsCommand::CfnDescribeStacks => seq!["cloudformation"@, "describe-stacks"@],
        AwsCommand::Generic => Seq::empty(),
    }
}

/// Routing looks at the subcommand and the first argument only: the
/// arguments after the operation never change the handler; an invocation
/// with no arguments goes to the generic handler; and each of the eight
/// specialized operations goes to its own handler.
pub proof fn law_route_reads_operation_only(sub: Seq<char>, args: Seq<Seq<char>>)
    ensures
        args.len() > 0 ==> route_of(sub, args) == route_of(sub, seq![args[0]]),
        args.len() == 0 ==> route_of(sub, args) == AwsCommand::Generic,
        args.len() > 0 ==> (route_of(sub, args) == AwsCommand::StsIdentity <==> (sub == "sts"@
            && args[0] == "get-caller-identity"@)),
        args.len() > 0 ==> (route_of(sub, args) == AwsCommand::S3Ls <==> (sub == "s3"@ && args[0]
            == "ls"@)),
        args.len() > 0 ==> (route_of(sub, args) == AwsCommand::Ec2Describe <==> (sub == "ec2"@
            && args[0] == "describe-instances"@)),
        args.len() > 0 ==> (route_of(sub, args) == AwsCommand::EcsListServices <==> (sub
            == "ecs"@ && args[0] == "list-services"@)),
        args.len() > 0 ==> (route_of(sub, args) == AwsCommand::EcsDescribeServices <==> (sub
            == "ecs"@ && args[0] == "describe-services"@)),
        args.len() > 0 ==> (route_of(sub, args) == AwsCommand::RdsDescribe <==> (sub == "rds"@
            && args[0] == "describe-db-instances"@)),
        args.len() > 0 ==> (route_of(sub, args) == AwsCommand::CfnListStacks <==> (sub
            == "cloudformation"@ && args[0] == "list-stacks"@)),
        args.len() > 0 ==> (route_of(sub, args) == AwsCommand::CfnDescribeStacks <==> (sub
            == "cloudformation"@ && args[0] == "describe-stacks"@)),
{
    reveal_strlit("sts");
    reveal_strlit("s3");
    reveal_strlit("ec2");
    reveal_strlit("ecs");
    reveal_strlit("rds");
    reveal_strlit("cloudformation");
    reveal_strlit("get-caller-identity");
    reveal_strlit("ls");
    reveal_strlit("describe-instances");
    reveal_strlit("list-services");
    reveal_strlit("describe-services");
    reveal_strlit("describe-db-instances");
    reveal_strlit("list-stacks");
    reveal_strlit("describe-stacks");
    let subs = seq!["sts"@, "s3"@, "ec2"@, "ecs"@, "rds"@, "cloudformation"@];
    assert(subs[0][0] == 's' && subs[1].len() == 2 && subs[2][2] == '2' && subs[3][2] == 's'
        && subs[4][0] == 'r' && subs[5].len() == 14);
    assert forall|a: int, b: int| 0 <= a < b < 6 implies #[trigger] subs[a] != #[trigger] subs[b] by {
        if subs[a] == subs[b] {
            assert(subs[a].len() == subs[b].len());
            assert(subs[a][0] == subs[b][0]);
            assert(subs[a][1] == subs[b][1]);
            assert(subs[a][2] == subs[b][2]);
        }
    }
    assert("list-services"@.len() != "describe-services"@.len());
    assert("list-stacks"@.len() != "describe-stacks"@.len());
}

proof fn lemma_words_joined_is_spaced(words: Seq<Seq<char>>)
    ensures
        words_joined(words) == joined_with(words, ' '),
    decreases words.len(),
{
    reveal_strlit(" ");
    if words.len() > 1 {
        lemma_words_joined_is_spaced(words.drop_last());
    }
}

/// The subcommand as shown is the subcommand alone when there are no
/// arguments; otherwise, where no word holds a space, it reads as the
/// subcommand followed by the arguments, word for word.
pub proof fn law_full_sub_words(sub: Seq<char>, args: Seq<Seq<char>>)
    ensures
        args.len() == 0 ==> full_sub_of(sub, args) == sub,
        args.len() > 0 && free_of(sub, ' ') && (forall|i: int|
            0 <= i < args.len() ==> free_of(#[trigger] args[i], ' ')) ==> split_on(
            full_sub_of(sub, args),
            ' ',
        ) == seq![sub] + args,
{
    if args.len() > 0 {
        reveal_strlit(" ");
        lemma_words_joined_is_spaced(args);
        lemma_words_joined_is_spaced(seq![sub] + args);
        assert(joined_with(seq![sub] + args, ' ') == sub + seq![' '] + joined_with(args, ' ')) by {
            lemma_joined_with_prepend(sub, args, ' ');
        }
        assert(full_sub_of(sub, args) =~= joined_with(seq![sub] + args, ' '));
        if free_of(sub, ' ') && (forall|i: int| 0 <= i < args.len() ==> free_of(#[trigger] args[i], ' ')) {
            let all = seq![sub] + args;
            assert forall|i: int| 0 <= i < all.len() implies free_of(#[trigger] all[i], ' ') by {
                if i > 0 {
                    assert(all[i] == args[i - 1]);
                }
            }
            law_split_joined_with(all, ' ');
        }
    }
}

proof fn lemma_joined_with_prepend(first: Seq<char>, rest: Seq<Seq<char>>, sep: char)
    requires
        rest.len() > 0,
    ensures
        joined_with(seq![first] + rest, sep) == first + seq![sep] + joined_with(rest, sep),
    decreases rest.len(),
{
    let all = seq![first] + rest;
    if rest.len() == 1 {
        assert(all.drop_last() =~= seq![first]);
        assert(all.last() == rest[0]);
        assert(joined_with(seq![first], sep) == first);
        assert(joined_with(all, sep) == joined_with(all.drop_last(), sep) + seq![sep] + all.last());
    } else {
        lemma_joined_with_prepend(first, rest.drop_last(), sep);
        assert(all.drop_last() =~= seq![first] + rest.drop_last());
        assert(all.last() == rest.last());
        assert(joined_with(all, sep) == joined_with(all.drop_last(), sep) + seq![sep] + all.last());
        assert(joined_with(rest, sep) == joined_with(rest.drop_last(), sep) + seq![sep]
            + rest.last());
        assert(joined_with(all, sep) =~= first + seq![sep] + joined_with(rest, sep));
    }
}

/// What the handlers print: the summary of a JSON handler where the output
/// parses and holds what the summary reads, the output unchanged where it
/// does not; the shortened listing for `s3 ls`; nothing for the generic
/// handler.
pub proof fn law_handler_output(command: AwsCommand, raw: Seq<char>)
    ensures
        command == AwsCommand::Generic <==> handler_output(command, raw) is None,
        command == AwsCommand::S3Ls ==> handler_output(command, raw) == Some(s3_listing(raw)),
        command != AwsCommand::Generic && command != AwsCommand::S3Ls && json_parse(raw) is None
            ==> handler_output(command, raw) == Some(raw),
        json_parse(raw) matches Some(doc) ==> {
            &&& handler_output(AwsCommand::StsIdentity, raw) == Some(sts_summary(doc))
            &&& handler_output(AwsCommand::Ec2Describe, raw) == Some(
                report_or_raw(ec2_report(doc), raw),
            )
            &&& handler_output(AwsCommand::EcsListServices, raw) == Some(
                report_or_raw(ecs_list_report(doc), raw),
            )
            &&& handler_output(AwsCommand::EcsDescribeServices, raw) == Some(
                report_or_raw(ecs_describe_report(doc), raw),
            )
            &&& handler_output(AwsCommand::RdsDescribe, raw) == Some(
                report_or_raw(rds_report(doc), raw),
            )
            &&& handler_output(AwsCommand::CfnListStacks, raw) == Some(
                report_or_raw(cfn_list_report(doc), raw),
            )
            &&& handler_output(AwsCommand::CfnDescribeStacks, raw) == Some(
                report_or_raw(cfn_describe_report(doc), raw),
            )
        },
        forall|r: Option<Seq<char>>|
            #![trigger report_or_raw(r, raw)]
            report_or_raw(r, raw) == match r {
                Some(t) => t,
                None => raw,
            },
{
}

/// A specialized handler runs the very operation that was asked for.
pub proof fn law_route_keeps_operation(sub: Seq<char>, args: Seq<Seq<char>>)
    ensures
        route_of(sub, args) != AwsCommand::Generic ==> args.len() > 0 && operation_words(
            route_of(sub, args),
        ) == seq![sub, args[0]],
{
}

/// The full argument list that the handler of `command` passes to `aws`.
pub open spec fn command_args_of(
    command: AwsCommand,
    sub: Seq<char>,
    args: Seq<Seq<char>>,
) -> Seq<Seq<char>> {
    match command {
        AwsCommand::Generic => generic_args_of(sub, args),
        AwsCommand::S3Ls => s3_ls_args_of(args),
        _ => json_args_of(operation_words(command), args),
    }
}

/// The argument list that the handler of `command` passes to `aws`, given
/// the subcommand and the arguments the handler received.
pub fn command_args(command: AwsCommand, subcommand: &str, args: &[String]) -> (res: Vec<String>)
    ensures
        views(res@) == command_args_of(command, subcommand@, views(args@)),
{
    let words: [&str; 2] = match command {
        AwsCommand::Generic => return generic_args(subcommand, args),
        AwsCommand::S3Ls => return s3_ls_args(args),
        AwsCommand::StsIdentity => ["sts", "get-caller-identity"],
        AwsCommand::Ec2Describe => ["ec2", "describe-instances"],
        AwsCommand::EcsListServices => ["ecs", "list-services"],
        AwsCommand::EcsDescribeServices => ["ecs", "describe-services"],
        AwsCommand::RdsDescribe => ["rds", "describe-db-instances"],
        AwsCommand::CfnListStacks => ["cloudformation", "list-stacks"],
        AwsCommand::CfnDescribeStacks => ["cloudformation", "describe-stacks"],
    };
    let res = json_args(words.as_slice(), args);
    assert(str_views(words@) =~= operation_words(command));
    res
}

/// A summary where there is one, else the raw output.
pub open spec fn report_or_raw(report: Option<Seq<char>>, raw: Seq<char>) -> Seq<char> {
    match report {
        Some(text) => text,
        None => raw,
    }
}

/// What a specialized handler prints for the output `raw` of `aws`: the
/// summary, or `raw` itself where the output is not what the summary reads.
/// The generic handler has no summary here.
pub open spec fn handler_output(command: AwsCommand, raw: Seq<char>) -> Option<Seq<char>> {
    match command {
        AwsCommand::S3Ls => Some(s3_listing(raw)),
        AwsCommand::Generic => None,
        _ => Some(
            match json_parse(raw) {
                None => raw,
                Some(doc) => report_or_raw(
                    match command {
                        AwsCommand::StsIdentity => Some(sts_summary(doc)),
                        AwsCommand::Ec2Describe => ec2_report(doc),
                        AwsCommand::EcsListServices => ecs_list_report(doc),
                        AwsCommand::EcsDescribeServices => ecs_describe_report(doc),
                        AwsCommand::RdsDescribe => rds_report(doc),
                        AwsCommand::CfnListStacks => cfn_list_report(doc),
                        _ => cfn_describe_report(doc),
                    },
                    raw,
                ),
            },
        ),
    }
}

/// The output of a filter, or the raw text where the filter gives none.
fn or_raw(filtered: Option<String>, raw: &str) -> (res: String)
    ensures
        res@ == match filtered {
            Some(s) => s@,
            None => raw@,
        },
{
    match filtered {
        Some(s) => s,
        None => raw.to_owned(),
    }
}

/// What the handler of `command` prints for the output `raw` of `aws`;
/// `None` for the generic handler.
pub fn filter_output(command: AwsCommand, raw: &str) -> (res: Option<String>)
    ensures
        match handler_output(command, raw@) {
            None => res is None,
            Some(text) => res matches Some(s) && s@ == text,
        },
{
    match command {
        AwsCommand::StsIdentity => Some(or_raw(filter_sts_identity(raw), raw)),
        AwsCommand::S3Ls => Some(filter_s3_ls(raw)),
        AwsCommand::Ec2Describe => Some(or_raw(filter_ec2_instances(raw), raw)),
        AwsCommand::EcsListServices => Some(or_raw(filter_ecs_list_services(raw), raw)),
        AwsCommand::EcsDescribeServices => Some(or_raw(filter_ecs_describe_services(raw), raw)),
        AwsCommand::RdsDescribe => Some(or_raw(filter_rds_instances(raw), raw)),
        AwsCommand::CfnListStacks => Some(or_raw(filter_cfn_list_stacks(raw), raw)),
        AwsCommand::CfnDescribeStacks => Some(or_raw(filter_cfn_describe_stacks(raw), raw)),
        AwsCommand::Generic => None,
    }
}

} // verus!
