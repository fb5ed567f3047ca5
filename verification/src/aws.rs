//! The AWS filters: short summaries of what `aws` prints, one line per item,
//! at most `MAX_ITEMS` items followed by a count of the rest.

use vstd::prelude::*;
use crate::json::{
    array_of, field, i64_or_zero, json_parse, parse_json, str_of, str_or, JsonValue,
};
use crate::text::{
    after_last, decimal, ends_with_cr, free_of, iso_date, join_lines, join_with_overflow,
    joined_with, last_segment, law_after_last_is_separator_free_suffix, law_decimal_reads_back,
    law_lines_have_no_newline, law_lines_of_joined, law_lines_rejoin, law_overflow_lines,
    law_overflow_note_at_end, law_split_joined_with, lemma_decimal_no_newline,
    lemma_joined_with_push, lemma_no_newline_concat, lemma_overflow_note_one_line,
    lemma_split_joined, lemma_views_push, lines, lines_joined, no_newline, overflow_note,
    plain_line, push_decimal, push_signed_decimal, push_str, signed_decimal, split_on, str_eq,
    text_lines, truncate_iso_date, views, with_overflow,
};

verus! {

/// How many items a summary lists before it only counts the rest.
pub const MAX_ITEMS: usize = 20;

/// How many lines of an `s3 ls` listing are kept.
pub const S3_MAX_LINES: usize = 30;

/// The first `max` elements of `items`, or all of them when there are fewer.
pub open spec fn first_n<T>(items: Seq<T>, max: nat) -> Seq<T> {
    if items.len() > max {
        items.take(max as int)
    } else {
        items
    }
}

/// A summary shows at most `max` items, and they are the first ones, in order.
pub proof fn law_first_items_in_order<T>(items: Seq<T>, max: nat)
    ensures
        first_n(items, max).len() <= max,
        first_n(items, max).len() == if items.len() > max {
            max
        } else {
            items.len()
        },
        first_n(items, max).is_prefix_of(items),
{
}

impl JsonValue {
    /// The text of the string member `key`, or `default`.
    pub fn str_field_or<'a>(&'a self, key: &str, default: &'a str) -> (res: &'a str)
        ensures
            res@ == str_or(*self, key@, default@),
    {
        match self.str_field(key) {
            Some(s) => s,
            None => default,
        }
    }
}

// ---------------------------------------------------------------- sts

/// "AWS: <account> <arn>", with "?" for a missing field.
pub open spec fn sts_summary(doc: JsonValue) -> Seq<char> {
    "AWS: "@ + str_or(doc, "Account"@, "?"@) + " "@ + str_or(doc, "Arn"@, "?"@)
}

/// Summarizes the caller identity that `aws sts get-caller-identity` reports.
pub fn sts_identity_summary(doc: &JsonValue) -> (res: String)
    ensures
        res@ == sts_summary(*doc),
{
    let mut out = String::new();
    push_str(&mut out, "AWS: ");
    push_str(&mut out, doc.str_field_or("Account", "?"));
    push_str(&mut out, " ");
    push_str(&mut out, doc.str_field_or("Arn", "?"));
    assert(out@ =~= sts_summary(*doc));
    out
}

/// Summarizes `aws sts get-caller-identity`; `None` when the output is not JSON.
pub fn filter_sts_identity(json_str: &str) -> (res: Option<String>)
    ensures
        match json_parse(json_str@) {
            None => res is None,
            Some(doc) => res matches Some(s) && s@ == sts_summary(doc),
        },
{
    match parse_json(json_str) {
        Some(doc) => Some(sts_identity_summary(&doc)),
        None => None,
    }
}

// ---------------------------------------------------------------- s3 ls

/// The first `S3_MAX_LINES` lines of a listing, then "... +N more items" for
/// the lines left out.
pub open spec fn s3_listing(output: Seq<char>) -> Seq<char> {
    let all = text_lines(output);
    with_overflow(first_n(all, S3_MAX_LINES as nat), all.len(), S3_MAX_LINES as nat, "items"@)
}

/// A listing of at most `S3_MAX_LINES` lines without carriage returns is
/// shown as it was printed, less a final newline.
pub proof fn law_short_listing_unchanged(output: Seq<char>)
    requires
        !output.contains('\r'),
        text_lines(output).len() <= S3_MAX_LINES,
    ensures
        s3_listing(output) == if output.len() > 0 && output.last() == '\n' {
            output.drop_last()
        } else {
            output
        },
{
    law_lines_rejoin(output);
}

/// The lines of a shortened listing: the first `S3_MAX_LINES` lines and a
/// note line when there are more, else the lines themselves less a final
/// empty one.
pub open spec fn listing_lines(all: Seq<Seq<char>>) -> Seq<Seq<char>> {
    if all.len() > S3_MAX_LINES {
        all.take(S3_MAX_LINES as int).push(
            overflow_note((all.len() - S3_MAX_LINES) as nat, "items"@),
        )
    } else if all.len() > 0 && all.last().len() == 0 {
        all.drop_last()
    } else {
        all
    }
}

/// A shortened listing has at most `S3_MAX_LINES` lines and a note; an empty
/// listing stays empty; and where no line of the listing ends with a stray
/// carriage return, the lines shown are its first lines, in order, then the
/// note when lines were left out.
pub proof fn law_listing_lines(output: Seq<char>)
    ensures
        text_lines(s3_listing(output)).len() <= S3_MAX_LINES + 1,
        output.len() == 0 ==> s3_listing(output).len() == 0,
        (forall|i: int|
            0 <= i < text_lines(output).len() ==> !ends_with_cr(#[trigger] text_lines(output)[i]))
            ==> text_lines(s3_listing(output)) == listing_lines(text_lines(output)),
{
    let all = text_lines(output);
    law_lines_have_no_newline(output);
    let out = s3_listing(output);
    if all.len() == 0 {
        assert(out.len() == 0);
        law_lines_have_no_newline(out);
        assert(listing_lines(all) =~= all);
    } else if all.len() <= S3_MAX_LINES {
        assert(first_n(all, S3_MAX_LINES as nat) == all);
        assert(out == lines_joined(all));
        lemma_split_joined(all);
        law_lines_have_no_newline(out);
        if forall|i: int| 0 <= i < all.len() ==> !ends_with_cr(#[trigger] all[i]) {
            law_lines_of_joined(all);
        }
    } else {
        let shown = all.take(S3_MAX_LINES as int);
        let note = overflow_note((all.len() - S3_MAX_LINES) as nat, "items"@);
        reveal_strlit("items");
        assert(no_newline("items"@));
        lemma_overflow_note_one_line((all.len() - S3_MAX_LINES) as nat, "items"@);
        let ls = shown.push(note);
        assert(ls.drop_last() =~= shown);
        assert(lines_joined(ls) == lines_joined(shown) + seq!['\n'] + note);
        assert(out == lines_joined(ls));
        assert forall|i: int| 0 <= i < ls.len() implies no_newline(#[trigger] ls[i]) by {
            if i < S3_MAX_LINES {
                assert(ls[i] == all[i]);
            }
        }
        lemma_split_joined(ls);
        law_lines_have_no_newline(out);
        if forall|i: int| 0 <= i < all.len() ==> !ends_with_cr(#[trigger] all[i]) {
            assert forall|i: int| 0 <= i < ls.len() - 1 implies !ends_with_cr(#[trigger] ls[i]) by {
                assert(ls[i] == all[i]);
            }
            law_lines_of_joined(ls);
        }
    }
}

/// Shortens the text listing of `aws s3 ls`.
pub fn filter_s3_ls(output: &str) -> (res: String)
    ensures
        res@ == s3_listing(output@),
{
    let all = lines(output);
    let total = all.len();
    let mut shown: Vec<String> = Vec::new();
    let mut i: usize = 0;
    while i < total && i < S3_MAX_LINES
        invariant
            total == all@.len(),
            i <= total,
            i <= S3_MAX_LINES,
            views(shown@) == views(all@).take(i as int),
        decreases total - i,
    {
        let line = all[i].as_str().to_owned();
        proof {
            lemma_views_push(shown@, line);
        }
        shown.push(line);
        i = i + 1;
        assert(views(all@).take(i as int) =~= views(all@).take(i - 1).push(all@[i - 1]@));
    }
    assert(views(shown@) =~= first_n(views(all@), S3_MAX_LINES as nat));
    join_with_overflow(&shown, total, S3_MAX_LINES, "items")
}

// ---------------------------------------------------------------- ec2

/// The first tag whose "Key" is "Name".
pub open spec fn name_tag(tags: Seq<JsonValue>) -> Option<JsonValue>
    decreases tags.len(),
{
    if tags.len() == 0 {
        None
    } else if str_of(field(tags[0], "Key"@)) == Some("Name"@) {
        Some(tags[0])
    } else {
        name_tag(tags.drop_first())
    }
}

/// The value of an instance's "Name" tag, or "-".
pub open spec fn instance_name(inst: JsonValue) -> Seq<char> {
    match array_of(field(inst, "Tags"@)) {
        Some(tags) => match name_tag(tags) {
            Some(tag) => str_or(tag, "Value"@, "-"@),
            None => "-"@,
        },
        None => "-"@,
    }
}

/// "<id> <state> <type> <private ip> (<name>)".
pub open spec fn instance_line(inst: JsonValue) -> Seq<char> {
    str_or(inst, "InstanceId"@, "?"@) + " "@ + str_or(field(inst, "State"@), "Name"@, "?"@) + " "@
        + str_or(inst, "InstanceType"@, "?"@) + " "@ + str_or(inst, "PrivateIpAddress"@, "-"@)
        + " ("@ + instance_name(inst) + ")"@
}

/// One line per instance of a reservation; none when it has no instance array.
pub open spec fn reservation_lines(reservation: JsonValue) -> Seq<Seq<char>> {
    match array_of(field(reservation, "Instances"@)) {
        Some(insts) => insts.map_values(|inst: JsonValue| instance_line(inst)),
        None => Seq::empty(),
    }
}

/// The lines of all instances of all reservations, in order.
pub open spec fn ec2_lines(reservations: Seq<JsonValue>) -> Seq<Seq<char>>
    decreases reservations.len(),
{
    if reservations.len() == 0 {
        Seq::empty()
    } else {
        ec2_lines(reservations.drop_last()) + reservation_lines(reservations.last())
    }
}

/// The lines of an EC2 summary: a header with the instance count, the first
/// `MAX_ITEMS` instance lines indented, and a count of the instances left out.
pub open spec fn ec2_summary_lines(instances: Seq<Seq<char>>) -> Seq<Seq<char>> {
    let total = instances.len();
    let header = "EC2: "@ + decimal(total) + " instances"@;
    let shown = first_n(instances, MAX_ITEMS as nat).map_values(|l: Seq<char>| "  "@ + l);
    let tail = if total > MAX_ITEMS {
        seq!["  ... +"@ + decimal((total - MAX_ITEMS) as nat) + " more"@]
    } else {
        Seq::empty()
    };
    seq![header] + shown + tail
}

/// The EC2 summary text: its lines joined with newlines.
pub open spec fn ec2_summary(instances: Seq<Seq<char>>) -> Seq<char> {
    lines_joined(ec2_summary_lines(instances))
}

/// The EC2 summary of a document, where its "Reservations" is an array.
pub open spec fn ec2_report(doc: JsonValue) -> Option<Seq<char>> {
    match array_of(field(doc, "Reservations"@)) {
        Some(reservations) => Some(ec2_summary(ec2_lines(reservations))),
        None => None,
    }
}

proof fn lemma_joined_last(ls: Seq<Seq<char>>)
    requires
        ls.len() >= 1,
        ls.last().len() > 0,
    ensures
        lines_joined(ls).len() > 0,
        lines_joined(ls).last() == ls.last().last(),
{
    if ls.len() > 1 {
        let j = lines_joined(ls.drop_last()) + seq!['\n'] + ls.last();
        assert(j[j.len() - 1] == ls.last()[ls.last().len() - 1]);
    }
}

proof fn lemma_indented_line(l: Seq<char>)
    requires
        no_newline(l),
        !ends_with_cr(l),
    ensures
        no_newline("  "@ + l),
        !ends_with_cr("  "@ + l),
        ("  "@ + l).len() > 0,
{
    reveal_strlit("  ");
    assert(no_newline("  "@));
    lemma_no_newline_concat("  "@, l);
    let t = "  "@ + l;
    if l.len() > 0 {
        assert(t[t.len() - 1] == l[l.len() - 1]);
    } else {
        assert(t[t.len() - 1] == ' ');
    }
}

/// Where no instance line holds a newline or ends with a carriage return,
/// the EC2 summary reads back, line by line, as: the header with the instance
/// count, the first `MAX_ITEMS` instance lines indented, and a count of the
/// rest when there are more; and it does not end with a newline.
pub proof fn law_ec2_summary_lines(instances: Seq<Seq<char>>)
    requires
        forall|i: int|
            0 <= i < instances.len() ==> no_newline(#[trigger] instances[i]) && !ends_with_cr(
                instances[i],
            ),
    ensures
        text_lines(ec2_summary(instances)) == ec2_summary_lines(instances),
        text_lines(ec2_summary(instances))[0] == "EC2: "@ + decimal(instances.len())
            + " instances"@,
        forall|j: int|
            0 <= j < first_n(instances, MAX_ITEMS as nat).len() ==> text_lines(
                ec2_summary(instances),
            )[j + 1] == "  "@ + instances[j],
        instances.len() > MAX_ITEMS ==> text_lines(ec2_summary(instances)).len() == MAX_ITEMS + 2
            && text_lines(ec2_summary(instances)).last() == "  ... +"@ + decimal(
            (instances.len() - MAX_ITEMS) as nat,
        ) + " more"@,
        instances.len() <= MAX_ITEMS ==> text_lines(ec2_summary(instances)).len()
            == instances.len() + 1,
        ec2_summary(instances).len() > 0,
        ec2_summary(instances).last() != '\n',
{
    let n = instances.len();
    let ls = ec2_summary_lines(instances);
    let header = "EC2: "@ + decimal(n) + " instances"@;
    let first = first_n(instances, MAX_ITEMS as nat);
    let shown = first.map_values(|l: Seq<char>| "  "@ + l);
    reveal_strlit("EC2: ");
    reveal_strlit(" instances");
    reveal_strlit("  ... +");
    reveal_strlit(" more");
    assert(no_newline("EC2: "@));
    assert(no_newline(" instances"@));
    assert(no_newline("  ... +"@));
    assert(no_newline(" more"@));
    lemma_decimal_no_newline(n);
    lemma_no_newline_concat("EC2: "@, decimal(n));
    lemma_no_newline_concat("EC2: "@ + decimal(n), " instances"@);
    assert(header[header.len() - 1] == 's');
    assert forall|j: int| 0 <= j < first.len() implies no_newline(#[trigger] shown[j])
        && !ends_with_cr(shown[j]) && shown[j].len() > 0 by {
        assert(first[j] == instances[j]);
        lemma_indented_line(instances[j]);
    }
    if n > MAX_ITEMS {
        lemma_decimal_no_newline((n - MAX_ITEMS) as nat);
        lemma_no_newline_concat("  ... +"@, decimal((n - MAX_ITEMS) as nat));
        lemma_no_newline_concat("  ... +"@ + decimal((n - MAX_ITEMS) as nat), " more"@);
    }
    assert forall|i: int| 0 <= i < ls.len() implies no_newline(#[trigger] ls[i]) by {
        if i > 0 && i <= first.len() {
            assert(ls[i] == shown[i - 1]);
        }
    }
    assert forall|i: int| 0 <= i < ls.len() - 1 implies !ends_with_cr(#[trigger] ls[i]) by {
        if i > 0 {
            assert(ls[i] == shown[i - 1]);
        }
    }
    assert(ls.last().len() > 0) by {
        if n > MAX_ITEMS {
        } else if first.len() > 0 {
            assert(ls.last() == shown[first.len() - 1]);
        }
    }
    law_lines_of_joined(ls);
    lemma_joined_last(ls);
    assert forall|j: int| 0 <= j < first.len() implies text_lines(ec2_summary(instances))[j + 1]
        == "  "@ + instances[j] by {
        assert(ls[j + 1] == shown[j]);
    }
}

/// Every instance line ends with ')'.
proof fn lemma_instance_lines_close(reservations: Seq<JsonValue>)
    ensures
        forall|i: int|
            0 <= i < ec2_lines(reservations).len() ==> (#[trigger] ec2_lines(reservations)[i]).len()
                > 0 && ec2_lines(reservations)[i].last() == ')',
    decreases reservations.len(),
{
    reveal_strlit(")");
    if reservations.len() > 0 {
        let front = reservations.drop_last();
        lemma_instance_lines_close(front);
        let a = ec2_lines(front);
        let b = reservation_lines(reservations.last());
        assert forall|i: int| 0 <= i < (a + b).len() implies ((a + b)[i]).len() > 0 && (a
            + b)[i].last() == ')' by {
            if i >= a.len() {
                let insts = array_of(field(reservations.last(), "Instances"@))->0;
                let l = instance_line(insts[i - a.len()]);
                assert(b[i - a.len()] == l);
                assert(l[l.len() - 1] == ')');
            }
        }
    }
}

/// Where the "Reservations" of a document is an array and no instance line
/// holds a newline, its EC2 summary reads back line by line as the header,
/// the first `MAX_ITEMS` instance lines in reservation and instance order,
/// and a count of the rest.
pub proof fn law_ec2_report_lines(doc: JsonValue)
    requires
        array_of(field(doc, "Reservations"@)) is Some,
        forall|i: int|
            0 <= i < ec2_lines(array_of(field(doc, "Reservations"@))->0).len() ==> no_newline(
                #[trigger] ec2_lines(array_of(field(doc, "Reservations"@))->0)[i],
            ),
    ensures
        ec2_report(doc) == Some(
            ec2_summary(ec2_lines(array_of(field(doc, "Reservations"@))->0)),
        ),
        text_lines(ec2_report(doc)->0) == ec2_summary_lines(
            ec2_lines(array_of(field(doc, "Reservations"@))->0),
        ),
{
    let lines = ec2_lines(array_of(field(doc, "Reservations"@))->0);
    lemma_instance_lines_close(array_of(field(doc, "Reservations"@))->0);
    assert forall|i: int| 0 <= i < lines.len() implies no_newline(#[trigger] lines[i])
        && !ends_with_cr(lines[i]) by {
        assert(lines[i][lines[i].len() - 1] == ')');
    }
    law_ec2_summary_lines(lines);
}

proof fn lemma_name_tag_first(tags: Seq<JsonValue>, k: int)
    requires
        0 <= k < tags.len(),
        str_of(field(tags[k], "Key"@)) == Some("Name"@),
        forall|j: int| 0 <= j < k ==> str_of(field(#[trigger] tags[j], "Key"@)) != Some("Name"@),
    ensures
        name_tag(tags) == Some(tags[k]),
    decreases k,
{
    if k > 0 {
        let rest = tags.drop_first();
        assert forall|j: int| 0 <= j < k - 1 implies str_of(field(#[trigger] rest[j], "Key"@))
            != Some("Name"@) by {
            assert(rest[j] == tags[j + 1]);
        }
        assert(str_of(field(tags[0], "Key"@)) != Some("Name"@));
        lemma_name_tag_first(rest, k - 1);
    }
}

proof fn lemma_name_tag_none(tags: Seq<JsonValue>)
    requires
        forall|j: int| 0 <= j < tags.len() ==> str_of(field(#[trigger] tags[j], "Key"@)) != Some(
            "Name"@,
        ),
    ensures
        name_tag(tags) is None,
    decreases tags.len(),
{
    if tags.len() > 0 {
        let rest = tags.drop_first();
        assert forall|j: int| 0 <= j < rest.len() implies str_of(field(#[trigger] rest[j], "Key"@))
            != Some("Name"@) by {
            assert(rest[j] == tags[j + 1]);
        }
        assert(str_of(field(tags[0], "Key"@)) != Some("Name"@));
        lemma_name_tag_none(rest);
    }
}

/// The name shown for an instance is the "Value" of the first of its tags
/// whose "Key" is "Name", wherever that tag stands among the others ("-" when
/// that value is not a string); it is "-" when no tag has that key or the
/// instance has no tag array. The line of an instance ends with that name in
/// parentheses, and begins with its id.
pub proof fn law_instance_name_is_first_name_tag(inst: JsonValue)
    ensures
        array_of(field(inst, "Tags"@)) matches Some(tags) ==> forall|k: int|
            0 <= k < tags.len() && str_of(field(#[trigger] tags[k], "Key"@)) == Some("Name"@) && (
            forall|j: int|
                0 <= j < k ==> str_of(field(#[trigger] tags[j], "Key"@)) != Some("Name"@))
                ==> instance_name(inst) == str_or(tags[k], "Value"@, "-"@),
        array_of(field(inst, "Tags"@)) matches Some(tags) ==> ((forall|j: int|
            0 <= j < tags.len() ==> str_of(field(#[trigger] tags[j], "Key"@)) != Some("Name"@))
            ==> instance_name(inst) == "-"@),
        array_of(field(inst, "Tags"@)) is None ==> instance_name(inst) == "-"@,
        (" ("@ + instance_name(inst) + ")"@).is_suffix_of(instance_line(inst)),
        (str_or(inst, "InstanceId"@, "?"@) + " "@).is_prefix_of(instance_line(inst)),
{
    if array_of(field(inst, "Tags"@)) is Some {
        let tags = array_of(field(inst, "Tags"@))->0;
        assert forall|k: int|
            0 <= k < tags.len() && str_of(field(#[trigger] tags[k], "Key"@)) == Some("Name"@) && (
            forall|j: int|
                0 <= j < k ==> str_of(field(#[trigger] tags[j], "Key"@)) != Some("Name"@))
                implies instance_name(inst) == str_or(tags[k], "Value"@, "-"@) by {
            lemma_name_tag_first(tags, k);
        }
        if forall|j: int|
            0 <= j < tags.len() ==> str_of(field(#[trigger] tags[j], "Key"@)) != Some("Name"@) {
            lemma_name_tag_none(tags);
        }
    }
    let line = instance_line(inst);
    let tail = " ("@ + instance_name(inst) + ")"@;
    let head = str_or(inst, "InstanceId"@, "?"@) + " "@;
    let mid = str_or(field(inst, "State"@), "Name"@, "?"@) + " "@ + str_or(
        inst,
        "InstanceType"@,
        "?"@,
    ) + " "@ + str_or(inst, "PrivateIpAddress"@, "-"@);
    assert(line =~= head + mid + tail);
    assert(line.subrange(line.len() - tail.len(), line.len() as int) =~= tail);
    assert(line.subrange(0, head.len() as int) =~= head);
}

/// The value of the instance's "Name" tag, or "-".
pub fn name_of_instance(inst: &JsonValue) -> (res: &str)
    ensures
        res@ == instance_name(*inst),
{
    match inst.array_field("Tags") {
        Some(tags) => {
            let mut i: usize = 0;
            assert(tags@.skip(0) =~= tags@);
            while i < tags.len()
                invariant
                    i <= tags@.len(),
                    array_of(field(*inst, "Tags"@)) == Some(tags@),
                    name_tag(tags@) == name_tag(tags@.skip(i as int)),
                decreases tags@.len() - i,
            {
                assert(tags@.skip(i as int).drop_first() =~= tags@.skip(i + 1));
                assert(tags@.skip(i as int)[0] == tags@[i as int]);
                let is_name = match tags[i].str_field("Key") {
                    Some(k) => str_eq(k, "Name"),
                    None => false,
                };
                if is_name {
                    return tags[i].str_field_or("Value", "-");
                }
                i = i + 1;
            }
            "-"
        },
        None => "-",
    }
}

/// The line of one instance.
pub fn describe_instance(inst: &JsonValue) -> (res: String)
    ensures
        res@ == instance_line(*inst),
{
    let state = match inst.get("State") {
        Some(s) => s.str_field_or("Name", "?"),
        None => "?",
    };
    let mut out = String::new();
    push_str(&mut out, inst.str_field_or("InstanceId", "?"));
    push_str(&mut out, " ");
    push_str(&mut out, state);
    push_str(&mut out, " ");
    push_str(&mut out, inst.str_field_or("InstanceType", "?"));
    push_str(&mut out, " ");
    push_str(&mut out, inst.str_field_or("PrivateIpAddress", "-"));
    push_str(&mut out, " (");
    push_str(&mut out, name_of_instance(inst));
    push_str(&mut out, ")");
    assert(out@ =~= instance_line(*inst));
    out
}

/// Appends the lines of a reservation's instances to `out`.
fn push_reservation_lines(out: &mut Vec<String>, reservation: &JsonValue)
    ensures
        views(final(out)@) == views(old(out)@) + reservation_lines(*reservation),
{
    match reservation.array_field("Instances") {
        Some(insts) => {
            let ghost start = views(out@);
            let mut i: usize = 0;
            while i < insts.len()
                invariant
                    i <= insts@.len(),
                    views(out@) == start + insts@.take(i as int).map_values(
                        |inst: JsonValue| instance_line(inst),
                    ),
                decreases insts@.len() - i,
            {
                let line = describe_instance(&insts[i]);
                proof {
                    lemma_views_push(out@, line);
                }
                out.push(line);
                i = i + 1;
                assert(insts@.take(i as int).map_values(|inst: JsonValue| instance_line(inst))
                    =~= insts@.take(i - 1).map_values(|inst: JsonValue| instance_line(inst)).push(
                    instance_line(insts@[i - 1]),
                ));
            }
            assert(insts@.take(insts@.len() as int) =~= insts@);
        },
        None => {
            assert(views(out@) =~= views(out@) + Seq::<Seq<char>>::empty());
        },
    }
}

/// Summarizes the instances of a `describe-instances` document; `None` when
/// it has no "Reservations" array.
pub fn ec2_instances_summary(doc: &JsonValue) -> (res: Option<String>)
    ensures
        match ec2_report(*doc) {
            None => res is None,
            Some(text) => res matches Some(s) && s@ == text,
        },
{
    let reservations = match doc.array_field("Reservations") {
        Some(r) => r,
        None => return None,
    };
    let mut instances: Vec<String> = Vec::new();
    let mut i: usize = 0;
    while i < reservations.len()
        invariant
            i <= reservations@.len(),
            views(instances@) == ec2_lines(reservations@.take(i as int)),
        decreases reservations@.len() - i,
    {
        push_reservation_lines(&mut instances, &reservations[i]);
        i = i + 1;
        assert(reservations@.take(i as int).drop_last() =~= reservations@.take(i - 1));
    }
    assert(reservations@.take(reservations@.len() as int) =~= reservations@);
    let total = instances.len();
    let mut lines_out: Vec<String> = Vec::new();
    let mut header = String::new();
    push_str(&mut header, "EC2: ");
    push_decimal(&mut header, total as u64);
    push_str(&mut header, " instances");
    proof {
        lemma_views_push(lines_out@, header);
    }
    lines_out.push(header);
    let ghost all = views(instances@);
    let mut j: usize = 0;
    while j < total && j < MAX_ITEMS
        invariant
            total == instances@.len(),
            all == views(instances@),
            j <= total,
            j <= MAX_ITEMS,
            views(lines_out@) == seq!["EC2: "@ + decimal(total as nat) + " instances"@]
                + all.take(j as int).map_values(|l: Seq<char>| "  "@ + l),
        decreases total - j,
    {
        let mut line = String::new();
        push_str(&mut line, "  ");
        push_str(&mut line, instances[j].as_str());
        proof {
            lemma_views_push(lines_out@, line);
        }
        lines_out.push(line);
        j = j + 1;
        assert(all.take(j as int).map_values(|l: Seq<char>| "  "@ + l) =~= all.take(j - 1).map_values(
            |l: Seq<char>| "  "@ + l,
        ).push("  "@ + all[j - 1]));
    }
    assert(all.take(j as int) =~= first_n(all, MAX_ITEMS as nat));
    let ghost header_line = "EC2: "@ + decimal(total as nat) + " instances"@;
    let ghost shown = first_n(all, MAX_ITEMS as nat).map_values(|l: Seq<char>| "  "@ + l);
    if total > MAX_ITEMS {
        let mut more = String::new();
        push_str(&mut more, "  ... +");
        push_decimal(&mut more, (total - MAX_ITEMS) as u64);
        push_str(&mut more, " more");
        proof {
            lemma_views_push(lines_out@, more);
        }
        lines_out.push(more);
        assert(views(lines_out@) =~= seq![header_line] + shown + seq![
            "  ... +"@ + decimal((total - MAX_ITEMS) as nat) + " more"@,
        ]);
    } else {
        assert(views(lines_out@) =~= seq![header_line] + shown + Seq::<Seq<char>>::empty());
    }
    let res = join_lines(&lines_out);
    assert(res@ =~= ec2_summary(ec2_lines(reservations@)));
    Some(res)
}

/// Summarizes `aws ec2 describe-instances`; `None` when the output is not
/// JSON or has no "Reservations" array.
pub fn filter_ec2_instances(json_str: &str) -> (res: Option<String>)
    ensures
        match json_parse(json_str@) {
            None => res is None,
            Some(doc) => match ec2_report(doc) {
                None => res is None,
                Some(text) => res matches Some(s) && s@ == text,
            },
        },
{
    match parse_json(json_str) {
        Some(doc) => ec2_instances_summary(&doc),
        None => None,
    }
}

/// What a listing summary `t` of the elements `arr` is, one line per element
/// drawn by `line` under the item name `label`: past `MAX_ITEMS` elements it
/// ends with a line counting all the elements left out; and where the lines
/// of the shown elements are plain, it reads back as the lines of the first
/// `MAX_ITEMS` elements, in order, then that count.
pub open spec fn lists_first_items(
    t: Seq<char>,
    arr: Seq<JsonValue>,
    line: spec_fn(JsonValue) -> Seq<char>,
    label: Seq<char>,
) -> bool {
    let n = arr.len();
    let shown = if n > MAX_ITEMS {
        MAX_ITEMS as nat
    } else {
        n
    };
    let note = overflow_note((n - MAX_ITEMS) as nat, label);
    &&& n > MAX_ITEMS ==> (seq!['\n'] + note).is_suffix_of(t)
    &&& (forall|j: int| 0 <= j < shown ==> plain_line(#[trigger] line(arr[j]))) ==> {
        &&& text_lines(t).len() == if n > MAX_ITEMS {
            shown + 1
        } else {
            shown
        }
        &&& forall|j: int| 0 <= j < shown ==> text_lines(t)[j] == line(arr[j])
        &&& n > MAX_ITEMS ==> text_lines(t).last() == note
    }
}

proof fn lemma_lists_first_items(
    arr: Seq<JsonValue>,
    items: Seq<Seq<char>>,
    line: spec_fn(JsonValue) -> Seq<char>,
    label: Seq<char>,
)
    requires
        items.len() == first_n(arr, MAX_ITEMS as nat).len(),
        forall|j: int| 0 <= j < items.len() ==> items[j] == line(arr[j]),
        no_newline(label),
    ensures
        lists_first_items(with_overflow(items, arr.len(), MAX_ITEMS as nat, label), arr, line, label),
{
    let n = arr.len();
    let t = with_overflow(items, n, MAX_ITEMS as nat, label);
    law_overflow_note_at_end(items, n, MAX_ITEMS as nat, label);
    if forall|j: int| 0 <= j < items.len() ==> plain_line(#[trigger] line(arr[j])) {
        assert forall|i: int| 0 <= i < items.len() implies plain_line(#[trigger] items[i]) by {
            assert(plain_line(line(arr[i])));
        }
        law_overflow_lines(items, n, MAX_ITEMS as nat, label);
        if n > MAX_ITEMS {
            let note = overflow_note((n - MAX_ITEMS) as nat, label);
            assert forall|j: int| 0 <= j < items.len() implies text_lines(t)[j] == line(arr[j]) by {
                assert(items.push(note)[j] == items[j]);
            }
        }
    }
}

// ---------------------------------------------------------------- ecs

/// The service name at the end of an ARN ("...:service/cluster/api" gives
/// "api"); "?" for an element that is not a string.
pub open spec fn service_short_name(arn: JsonValue) -> Seq<char> {
    match str_of(arn) {
        Some(s) => after_last(s, '/'),
        None => "?"@,
    }
}

/// The short names of the first `MAX_ITEMS` services, then a count of the rest.
pub open spec fn ecs_list_report(doc: JsonValue) -> Option<Seq<char>> {
    match array_of(field(doc, "serviceArns"@)) {
        Some(arns) => Some(
            with_overflow(
                first_n(arns, MAX_ITEMS as nat).map_values(|a: JsonValue| service_short_name(a)),
                arns.len(),
                MAX_ITEMS as nat,
                "services"@,
            ),
        ),
        None => None,
    }
}

/// The services summary lists the short names of the first `MAX_ITEMS`
/// services in order and counts all the services left out.
pub proof fn law_ecs_list_lists_first_items(doc: JsonValue)
    requires
        array_of(field(doc, "serviceArns"@)) is Some,
    ensures
        ecs_list_report(doc) is Some,
        lists_first_items(
            ecs_list_report(doc)->0,
            array_of(field(doc, "serviceArns"@))->0,
            |a: JsonValue| service_short_name(a),
            "services"@,
        ),
{
    let arr = array_of(field(doc, "serviceArns"@))->0;
    let items = first_n(arr, MAX_ITEMS as nat).map_values(|a: JsonValue| service_short_name(a));
    reveal_strlit("services");
    assert(no_newline("services"@));
    lemma_lists_first_items(arr, items, |a: JsonValue| service_short_name(a), "services"@);
}

/// Summarizes a `list-services` document; `None` when it has no
/// "serviceArns" array.
pub fn ecs_services_list(doc: &JsonValue) -> (res: Option<String>)
    ensures
        match ecs_list_report(*doc) {
            None => res is None,
            Some(text) => res matches Some(s) && s@ == text,
        },
{
    let arns = match doc.array_field("serviceArns") {
        Some(a) => a,
        None => return None,
    };
    let total = arns.len();
    let mut result: Vec<String> = Vec::new();
    let mut i: usize = 0;
    while i < total && i < MAX_ITEMS
        invariant
            total == arns@.len(),
            i <= total,
            i <= MAX_ITEMS,
            views(result@) == arns@.take(i as int).map_values(|a: JsonValue| service_short_name(a)),
        decreases total - i,
    {
        let arn_str = match arns[i].as_str() {
            Some(s) => s,
            None => "?",
        };
        proof {
            reveal_strlit("?");
        }
        let short = last_segment(arn_str, '/');
        assert(short@ == service_short_name(arns@[i as int])) by {
            if str_of(arns@[i as int]) is None {
                assert(after_last("?"@, '/') =~= "?"@) by {
                    reveal_strlit("?");
                    assert("?"@.drop_last() =~= Seq::<char>::empty());
                    assert(after_last(Seq::<char>::empty(), '/') =~= Seq::<char>::empty());
                }
            }
        }
        proof {
            lemma_views_push(result@, short);
        }
        result.push(short);
        i = i + 1;
        assert(arns@.take(i as int).map_values(|a: JsonValue| service_short_name(a)) =~= arns@.take(
            i - 1,
        ).map_values(|a: JsonValue| service_short_name(a)).push(service_short_name(arns@[i - 1])));
    }
    assert(arns@.take(i as int) =~= first_n(arns@, MAX_ITEMS as nat));
    Some(join_with_overflow(&result, total, MAX_ITEMS, "services"))
}

/// Summarizes `aws ecs list-services`; `None` when the output is not JSON or
/// has no "serviceArns" array.
pub fn filter_ecs_list_services(json_str: &str) -> (res: Option<String>)
    ensures
        match json_parse(json_str@) {
            None => res is None,
            Some(doc) => match ecs_list_report(doc) {
                None => res is None,
                Some(text) => res matches Some(s) && s@ == text,
            },
        },
{
    match parse_json(json_str) {
        Some(doc) => ecs_services_list(&doc),
        None => None,
    }
}

/// "<name> <status> <running>/<desired> (<launch type>)".
pub open spec fn service_line(svc: JsonValue) -> Seq<char> {
    str_or(svc, "serviceName"@, "?"@) + " "@ + str_or(svc, "status"@, "?"@) + " "@
        + signed_decimal(i64_or_zero(svc, "runningCount"@) as int) + "/"@
        + signed_decimal(i64_or_zero(svc, "desiredCount"@) as int) + " ("@
        + str_or(svc, "launchType"@, "?"@) + ")"@
}

/// The lines of the first `MAX_ITEMS` services, then a count of the rest.
pub open spec fn ecs_describe_report(doc: JsonValue) -> Option<Seq<char>> {
    match array_of(field(doc, "services"@)) {
        Some(svcs) => Some(
            with_overflow(
                first_n(svcs, MAX_ITEMS as nat).map_values(|s: JsonValue| service_line(s)),
                svcs.len(),
                MAX_ITEMS as nat,
                "services"@,
            ),
        ),
        None => None,
    }
}

/// The line of one service.
pub fn describe_service(svc: &JsonValue) -> (res: String)
    ensures
        res@ == service_line(*svc),
{
    let mut out = String::new();
    push_str(&mut out, svc.str_field_or("serviceName", "?"));
    push_str(&mut out, " ");
    push_str(&mut out, svc.str_field_or("status", "?"));
    push_str(&mut out, " ");
    push_signed_decimal(&mut out, svc.i64_field_or_zero("runningCount"));
    push_str(&mut out, "/");
    push_signed_decimal(&mut out, svc.i64_field_or_zero("desiredCount"));
    push_str(&mut out, " (");
    push_str(&mut out, svc.str_field_or("launchType", "?"));
    push_str(&mut out, ")");
    assert(out@ =~= service_line(*svc));
    out
}

/// The services summary lists the first `MAX_ITEMS` services in order and
/// counts all the services left out.
pub proof fn law_ecs_describe_lists_first_items(doc: JsonValue)
    requires
        array_of(field(doc, "services"@)) is Some,
    ensures
        ecs_describe_report(doc) is Some,
        lists_first_items(
            ecs_describe_report(doc)->0,
            array_of(field(doc, "services"@))->0,
            |s: JsonValue| service_line(s),
            "services"@,
        ),
{
    let arr = array_of(field(doc, "services"@))->0;
    let items = first_n(arr, MAX_ITEMS as nat).map_values(|s: JsonValue| service_line(s));
    reveal_strlit("services");
    assert(no_newline("services"@));
    lemma_lists_first_items(arr, items, |s: JsonValue| service_line(s), "services"@);
}

/// Summarizes a `describe-services` document; `None` when it has no
/// "services" array.
pub fn ecs_services_summary(doc: &JsonValue) -> (res: Option<String>)
    ensures
        match ecs_describe_report(*doc) {
            None => res is None,
            Some(text) => res matches Some(s) && s@ == text,
        },
{
    let svcs = match doc.array_field("services") {
        Some(a) => a,
        None => return None,
    };
    let total = svcs.len();
    let mut result: Vec<String> = Vec::new();
    let mut i: usize = 0;
    while i < total && i < MAX_ITEMS
        invariant
            total == svcs@.len(),
            i <= total,
            i <= MAX_ITEMS,
            views(result@) == svcs@.take(i as int).map_values(|s: JsonValue| service_line(s)),
        decreases total - i,
    {
        let line = describe_service(&svcs[i]);
        proof {
            lemma_views_push(result@, line);
        }
        result.push(line);
        i = i + 1;
        assert(svcs@.take(i as int).map_values(|s: JsonValue| service_line(s)) =~= svcs@.take(
            i - 1,
        ).map_values(|s: JsonValue| service_line(s)).push(service_line(svcs@[i - 1])));
    }
    assert(svcs@.take(i as int) =~= first_n(svcs@, MAX_ITEMS as nat));
    Some(join_with_overflow(&result, total, MAX_ITEMS, "services"))
}

/// Summarizes `aws ecs describe-services`; `None` when the output is not JSON
/// or has no "services" array.
pub fn filter_ecs_describe_services(json_str: &str) -> (res: Option<String>)
    ensures
        match json_parse(json_str@) {
            None => res is None,
            Some(doc) => match ecs_describe_report(doc) {
                None => res is None,
                Some(text) => res matches Some(s) && s@ == text,
            },
        },
{
    match parse_json(json_str) {
        Some(doc) => ecs_services_summary(&doc),
        None => None,
    }
}

// ---------------------------------------------------------------- rds

/// "<identifier> <engine> <version> <class> <status>".
pub open spec fn db_line(db: JsonValue) -> Seq<char> {
    str_or(db, "DBInstanceIdentifier"@, "?"@) + " "@ + str_or(db, "Engine"@, "?"@) + " "@
        + str_or(db, "EngineVersion"@, "?"@) + " "@ + str_or(db, "DBInstanceClass"@, "?"@)
        + " "@ + str_or(db, "DBInstanceStatus"@, "?"@)
}

/// The lines of the first `MAX_ITEMS` instances, then a count of the rest.
pub open spec fn rds_report(doc: JsonValue) -> Option<Seq<char>> {
    match array_of(field(doc, "DBInstances"@)) {
        Some(dbs) => Some(
            with_overflow(
                first_n(dbs, MAX_ITEMS as nat).map_values(|d: JsonValue| db_line(d)),
                dbs.len(),
                MAX_ITEMS as nat,
                "instances"@,
            ),
        ),
        None => None,
    }
}

/// The line of one database instance.
pub fn describe_db(db: &JsonValue) -> (res: String)
    ensures
        res@ == db_line(*db),
{
    let mut out = String::new();
    push_str(&mut out, db.str_field_or("DBInstanceIdentifier", "?"));
    push_str(&mut out, " ");
    push_str(&mut out, db.str_field_or("Engine", "?"));
    push_str(&mut out, " ");
    push_str(&mut out, db.str_field_or("EngineVersion", "?"));
    push_str(&mut out, " ");
    push_str(&mut out, db.str_field_or("DBInstanceClass", "?"));
    push_str(&mut out, " ");
    push_str(&mut out, db.str_field_or("DBInstanceStatus", "?"));
    assert(out@ =~= db_line(*db));
    out
}

/// The RDS summary shows at most `MAX_ITEMS` instance lines, those of the
/// first instances in order, and counts all the instances left out.
pub proof fn law_rds_lists_first_items(doc: JsonValue)
    requires
        array_of(field(doc, "DBInstances"@)) is Some,
    ensures
        rds_report(doc) is Some,
        lists_first_items(
            rds_report(doc)->0,
            array_of(field(doc, "DBInstances"@))->0,
            |d: JsonValue| db_line(d),
            "instances"@,
        ),
{
    let arr = array_of(field(doc, "DBInstances"@))->0;
    let items = first_n(arr, MAX_ITEMS as nat).map_values(|d: JsonValue| db_line(d));
    reveal_strlit("instances");
    assert(no_newline("instances"@));
    lemma_lists_first_items(arr, items, |d: JsonValue| db_line(d), "instances"@);
}

/// Summarizes a `describe-db-instances` document; `None` when it has no
/// "DBInstances" array.
pub fn rds_instances_summary(doc: &JsonValue) -> (res: Option<String>)
    ensures
        match rds_report(*doc) {
            None => res is None,
            Some(text) => res matches Some(s) && s@ == text,
        },
{
    let dbs = match doc.array_field("DBInstances") {
        Some(a) => a,
        None => return None,
    };
    let total = dbs.len();
    let mut result: Vec<String> = Vec::new();
    let mut i: usize = 0;
    while i < total && i < MAX_ITEMS
        invariant
            total == dbs@.len(),
            i <= total,
            i <= MAX_ITEMS,
            views(result@) == dbs@.take(i as int).map_values(|d: JsonValue| db_line(d)),
        decreases total - i,
    {
        let line = describe_db(&dbs[i]);
        proof {
            lemma_views_push(result@, line);
        }
        result.push(line);
        i = i + 1;
        assert(dbs@.take(i as int).map_values(|d: JsonValue| db_line(d)) =~= dbs@.take(
            i - 1,
        ).map_values(|d: JsonValue| db_line(d)).push(db_line(dbs@[i - 1])));
    }
    assert(dbs@.take(i as int) =~= first_n(dbs@, MAX_ITEMS as nat));
    Some(join_with_overflow(&result, total, MAX_ITEMS, "instances"))
}

/// Summarizes `aws rds describe-db-instances`; `None` when the output is not
/// JSON or has no "DBInstances" array.
pub fn filter_rds_instances(json_str: &str) -> (res: Option<String>)
    ensures
        match json_parse(json_str@) {
            None => res is None,
            Some(doc) => match rds_report(doc) {
                None => res is None,
                Some(text) => res matches Some(s) && s@ == text,
            },
        },
{
    match parse_json(json_str) {
        Some(doc) => rds_instances_summary(&doc),
        None => None,
    }
}

// ---------------------------------------------------------------- cloudformation

/// The stack's "LastUpdatedTime", else its "CreationTime", else "?".
pub open spec fn stack_date(stack: JsonValue) -> Seq<char> {
    match str_of(field(stack, "LastUpdatedTime"@)) {
        Some(d) => d,
        None => str_or(stack, "CreationTime"@, "?"@),
    }
}

/// "<name> <status> <date>".
pub open spec fn stack_line(stack: JsonValue) -> Seq<char> {
    str_or(stack, "StackName"@, "?"@) + " "@ + str_or(stack, "StackStatus"@, "?"@) + " "@
        + iso_date(stack_date(stack))
}

/// The lines of the first `MAX_ITEMS` stack summaries, then a count of the rest.
pub open spec fn cfn_list_report(doc: JsonValue) -> Option<Seq<char>> {
    match array_of(field(doc, "StackSummaries"@)) {
        Some(stacks) => Some(
            with_overflow(
                first_n(stacks, MAX_ITEMS as nat).map_values(|s: JsonValue| stack_line(s)),
                stacks.len(),
                MAX_ITEMS as nat,
                "stacks"@,
            ),
        ),
        None => None,
    }
}

/// The line of one stack.
pub fn describe_stack(stack: &JsonValue) -> (res: String)
    ensures
        res@ == stack_line(*stack),
{
    let date = match stack.str_field("LastUpdatedTime") {
        Some(d) => d,
        None => stack.str_field_or("CreationTime", "?"),
    };
    let mut out = String::new();
    push_str(&mut out, stack.str_field_or("StackName", "?"));
    push_str(&mut out, " ");
    push_str(&mut out, stack.str_field_or("StackStatus", "?"));
    push_str(&mut out, " ");
    let day = truncate_iso_date(date);
    push_str(&mut out, day.as_str());
    assert(out@ =~= stack_line(*stack));
    out
}

/// The stack list shows the lines of the first `MAX_ITEMS` stacks in order
/// and counts all the stacks left out.
pub proof fn law_cfn_list_lists_first_items(doc: JsonValue)
    requires
        array_of(field(doc, "StackSummaries"@)) is Some,
    ensures
        cfn_list_report(doc) is Some,
        lists_first_items(
            cfn_list_report(doc)->0,
            array_of(field(doc, "StackSummaries"@))->0,
            |s: JsonValue| stack_line(s),
            "stacks"@,
        ),
{
    let arr = array_of(field(doc, "StackSummaries"@))->0;
    let items = first_n(arr, MAX_ITEMS as nat).map_values(|s: JsonValue| stack_line(s));
    reveal_strlit("stacks");
    assert(no_newline("stacks"@));
    lemma_lists_first_items(arr, items, |s: JsonValue| stack_line(s), "stacks"@);
}

/// Summarizes a `list-stacks` document; `None` when it has no
/// "StackSummaries" array.
pub fn cfn_stacks_list(doc: &JsonValue) -> (res: Option<String>)
    ensures
        match cfn_list_report(*doc) {
            None => res is None,
            Some(text) => res matches Some(s) && s@ == text,
        },
{
    let stacks = match doc.array_field("StackSummaries") {
        Some(a) => a,
        None => return None,
    };
    let total = stacks.len();
    let mut result: Vec<String> = Vec::new();
    let mut i: usize = 0;
    while i < total && i < MAX_ITEMS
        invariant
            total == stacks@.len(),
            i <= total,
            i <= MAX_ITEMS,
            views(result@) == stacks@.take(i as int).map_values(|s: JsonValue| stack_line(s)),
        decreases total - i,
    {
        let line = describe_stack(&stacks[i]);
        proof {
            lemma_views_push(result@, line);
        }
        result.push(line);
        i = i + 1;
        assert(stacks@.take(i as int).map_values(|s: JsonValue| stack_line(s)) =~= stacks@.take(
            i - 1,
        ).map_values(|s: JsonValue| stack_line(s)).push(stack_line(stacks@[i - 1])));
    }
    assert(stacks@.take(i as int) =~= first_n(stacks@, MAX_ITEMS as nat));
    Some(join_with_overflow(&result, total, MAX_ITEMS, "stacks"))
}

/// Summarizes `aws cloudformation list-stacks`; `None` when the output is not
/// JSON or has no "StackSummaries" array.
pub fn filter_cfn_list_stacks(json_str: &str) -> (res: Option<String>)
    ensures
        match json_parse(json_str@) {
            None => res is None,
            Some(doc) => match cfn_list_report(doc) {
                None => res is None,
                Some(text) => res matches Some(s) && s@ == text,
            },
        },
{
    match parse_json(json_str) {
        Some(doc) => cfn_stacks_list(&doc),
        None => None,
    }
}

/// "  <key>=<value>" for one stack output.
pub open spec fn output_line(out: JsonValue) -> Seq<char> {
    "  "@ + str_or(out, "OutputKey"@, "?"@) + "="@ + str_or(out, "OutputValue"@, "?"@)
}

/// The stack's line followed by one line per output, when it has an
/// "Outputs" array.
pub open spec fn stack_lines(stack: JsonValue) -> Seq<Seq<char>> {
    seq![stack_line(stack)] + match array_of(field(stack, "Outputs"@)) {
        Some(outs) => outs.map_values(|o: JsonValue| output_line(o)),
        None => Seq::empty(),
    }
}

/// The lines of the given stacks, in order.
pub open spec fn stacks_lines(stacks: Seq<JsonValue>) -> Seq<Seq<char>>
    decreases stacks.len(),
{
    if stacks.len() == 0 {
        Seq::empty()
    } else {
        stacks_lines(stacks.drop_last()) + stack_lines(stacks.last())
    }
}

/// The lines of the first `MAX_ITEMS` stacks with their outputs, then a count
/// of the stacks left out.
pub open spec fn cfn_describe_report(doc: JsonValue) -> Option<Seq<char>> {
    match array_of(field(doc, "Stacks"@)) {
        Some(stacks) => Some(
            with_overflow(
                stacks_lines(first_n(stacks, MAX_ITEMS as nat)),
                stacks.len(),
                MAX_ITEMS as nat,
                "stacks"@,
            ),
        ),
        None => None,
    }
}

/// The stack description lists the lines of the first `MAX_ITEMS` stacks with
/// their outputs, and counts the stacks (not the lines) left out.
pub proof fn law_cfn_describe_lists_first_stacks(doc: JsonValue)
    requires
        array_of(field(doc, "Stacks"@)) is Some,
    ensures
        ({
            let stacks = array_of(field(doc, "Stacks"@))->0;
            let n = stacks.len();
            let items = stacks_lines(first_n(stacks, MAX_ITEMS as nat));
            let note = overflow_note((n - MAX_ITEMS) as nat, "stacks"@);
            &&& cfn_describe_report(doc) is Some
            &&& n > MAX_ITEMS ==> (seq!['\n'] + note).is_suffix_of(cfn_describe_report(doc)->0)
            &&& (forall|i: int| 0 <= i < items.len() ==> plain_line(#[trigger] items[i]))
                ==> text_lines(cfn_describe_report(doc)->0) == if n > MAX_ITEMS {
                items.push(note)
            } else {
                items
            }
        }),
{
    let stacks = array_of(field(doc, "Stacks"@))->0;
    let n = stacks.len();
    let items = stacks_lines(first_n(stacks, MAX_ITEMS as nat));
    reveal_strlit("stacks");
    assert(no_newline("stacks"@));
    law_overflow_note_at_end(items, n, MAX_ITEMS as nat, "stacks"@);
    lemma_stacks_lines_len(first_n(stacks, MAX_ITEMS as nat));
    if forall|i: int| 0 <= i < items.len() ==> plain_line(#[trigger] items[i]) {
        law_overflow_lines(items, n, MAX_ITEMS as nat, "stacks"@);
    }
}

proof fn lemma_stacks_lines_len(stacks: Seq<JsonValue>)
    ensures
        stacks_lines(stacks).len() >= stacks.len(),
    decreases stacks.len(),
{
    if stacks.len() > 0 {
        lemma_stacks_lines_len(stacks.drop_last());
    }
}

/// The line of a stack ends with the date of its last update where it has one
/// as a string, else with its creation date, else with "?", cut to the day;
/// it begins with the stack's name and status; and the description of a
/// stack begins with the very line that the stack list shows for it, then
/// one "  key=value" line per output, in order.
pub proof fn law_stack_line_dates(stack: JsonValue)
    ensures
        stack_lines(stack)[0] == stack_line(stack),
        (str_or(stack, "StackName"@, "?"@) + " "@ + str_or(stack, "StackStatus"@, "?"@)
            + " "@).is_prefix_of(stack_line(stack)),
        str_of(field(stack, "LastUpdatedTime"@)) matches Some(d) ==> (" "@ + iso_date(
            d,
        )).is_suffix_of(stack_line(stack)),
        str_of(field(stack, "LastUpdatedTime"@)) is None ==> match str_of(
            field(stack, "CreationTime"@),
        ) {
            Some(c) => (" "@ + iso_date(c)).is_suffix_of(stack_line(stack)),
            None => (" "@ + "?"@).is_suffix_of(stack_line(stack)),
        },
        array_of(field(stack, "Outputs"@)) matches Some(outs) ==> stack_lines(stack).len()
            == outs.len() + 1 && forall|k: int|
            0 <= k < outs.len() ==> stack_lines(stack)[k + 1] == "  "@ + str_or(
                outs[k],
                "OutputKey"@,
                "?"@,
            ) + "="@ + str_or(outs[k], "OutputValue"@, "?"@),
        array_of(field(stack, "Outputs"@)) is None ==> stack_lines(stack).len() == 1,
{
    let head = str_or(stack, "StackName"@, "?"@) + " "@ + str_or(stack, "StackStatus"@, "?"@)
        + " "@;
    let date = iso_date(stack_date(stack));
    let line = stack_line(stack);
    assert(line =~= head + date);
    assert(line.subrange(0, head.len() as int) =~= head);
    let tail = " "@ + date;
    let head0 = str_or(stack, "StackName"@, "?"@) + " "@ + str_or(stack, "StackStatus"@, "?"@);
    assert(line =~= head0 + tail);
    assert(line.subrange(line.len() - tail.len(), line.len() as int) =~= tail);
    if str_of(field(stack, "LastUpdatedTime"@)) is None && str_of(field(stack, "CreationTime"@))
        is None {
        reveal_strlit("?");
        assert(iso_date("?"@) =~= "?"@);
    }
}

/// Appends the line of a stack and the lines of its outputs to `out`.
fn push_stack_lines(out: &mut Vec<String>, stack: &JsonValue)
    ensures
        views(final(out)@) == views(old(out)@) + stack_lines(*stack),
{
    let line = describe_stack(stack);
    proof {
        lemma_views_push(out@, line);
    }
    out.push(line);
    let ghost start = views(out@);
    match stack.array_field("Outputs") {
        Some(outs) => {
            let mut i: usize = 0;
            while i < outs.len()
                invariant
                    i <= outs@.len(),
                    views(out@) == start + outs@.take(i as int).map_values(
                        |o: JsonValue| output_line(o),
                    ),
                decreases outs@.len() - i,
            {
                let mut entry = String::new();
                push_str(&mut entry, "  ");
                push_str(&mut entry, outs[i].str_field_or("OutputKey", "?"));
                push_str(&mut entry, "=");
                push_str(&mut entry, outs[i].str_field_or("OutputValue", "?"));
                assert(entry@ =~= output_line(outs@[i as int]));
                proof {
                    lemma_views_push(out@, entry);
                }
                out.push(entry);
                i = i + 1;
                assert(outs@.take(i as int).map_values(|o: JsonValue| output_line(o))
                    =~= outs@.take(i - 1).map_values(|o: JsonValue| output_line(o)).push(
                    output_line(outs@[i - 1]),
                ));
            }
            assert(outs@.take(outs@.len() as int) =~= outs@);
            assert(views(out@) =~= views(old(out)@) + stack_lines(*stack));
        },
        None => {
            assert(views(out@) =~= views(old(out)@) + stack_lines(*stack));
        },
    }
}

/// Summarizes a `describe-stacks` document; `None` when it has no "Stacks"
/// array.
pub fn cfn_stacks_summary(doc: &JsonValue) -> (res: Option<String>)
    ensures
        match cfn_describe_report(*doc) {
            None => res is None,
            Some(text) => res matches Some(s) && s@ == text,
        },
{
    let stacks = match doc.array_field("Stacks") {
        Some(a) => a,
        None => return None,
    };
    let total = stacks.len();
    let mut result: Vec<String> = Vec::new();
    let mut i: usize = 0;
    while i < total && i < MAX_ITEMS
        invariant
            total == stacks@.len(),
            i <= total,
            i <= MAX_ITEMS,
            views(result@) == stacks_lines(stacks@.take(i as int)),
        decreases total - i,
    {
        push_stack_lines(&mut result, &stacks[i]);
        i = i + 1;
        assert(stacks@.take(i as int).drop_last() =~= stacks@.take(i - 1));
    }
    assert(stacks@.take(i as int) =~= first_n(stacks@, MAX_ITEMS as nat));
    Some(join_with_overflow(&result, total, MAX_ITEMS, "stacks"))
}

/// Summarizes `aws cloudformation describe-stacks`, with the outputs of each
/// stack; `None` when the output is not JSON or has no "Stacks" array.
pub fn filter_cfn_describe_stacks(json_str: &str) -> (res: Option<String>)
    ensures
        match json_parse(json_str@) {
            None => res is None,
            Some(doc) => match cfn_describe_report(doc) {
                None => res is None,
                Some(text) => res matches Some(s) && s@ == text,
            },
        },
{
    match parse_json(json_str) {
        Some(doc) => cfn_stacks_summary(&doc),
        None => None,
    }
}

// ---------------------------------------------------------------- line layouts

proof fn lemma_spaced3(a: Seq<char>, b: Seq<char>, c: Seq<char>)
    ensures
        joined_with(seq![a, b, c], ' ') == a + " "@ + b + " "@ + c,
{
    reveal_strlit(" ");
    assert(seq![a].push(b) =~= seq![a, b]);
    assert(seq![a, b].push(c) =~= seq![a, b, c]);
    lemma_joined_with_push(seq![a], b, ' ');
    lemma_joined_with_push(seq![a, b], c, ' ');
    assert(joined_with(seq![a, b, c], ' ') =~= a + " "@ + b + " "@ + c);
}

proof fn lemma_spaced4(a: Seq<char>, b: Seq<char>, c: Seq<char>, d: Seq<char>)
    ensures
        joined_with(seq![a, b, c, d], ' ') == a + " "@ + b + " "@ + c + " "@ + d,
{
    reveal_strlit(" ");
    lemma_spaced3(a, b, c);
    assert(seq![a, b, c].push(d) =~= seq![a, b, c, d]);
    lemma_joined_with_push(seq![a, b, c], d, ' ');
    assert(joined_with(seq![a, b, c, d], ' ') =~= a + " "@ + b + " "@ + c + " "@ + d);
}

proof fn lemma_spaced5(a: Seq<char>, b: Seq<char>, c: Seq<char>, d: Seq<char>, e: Seq<char>)
    ensures
        joined_with(seq![a, b, c, d, e], ' ') == a + " "@ + b + " "@ + c + " "@ + d + " "@ + e,
{
    reveal_strlit(" ");
    lemma_spaced4(a, b, c, d);
    assert(seq![a, b, c, d].push(e) =~= seq![a, b, c, d, e]);
    lemma_joined_with_push(seq![a, b, c, d], e, ' ');
    assert(joined_with(seq![a, b, c, d, e], ' ') =~= a + " "@ + b + " "@ + c + " "@ + d + " "@
        + e);
}

/// Where the account and the ARN hold no space, the identity summary reads as
/// the three words "AWS:", the account (or "?") and the ARN (or "?"), in
/// that order.
pub proof fn law_sts_summary_words(doc: JsonValue)
    ensures
        free_of(str_or(doc, "Account"@, "?"@), ' ') && free_of(str_or(doc, "Arn"@, "?"@), ' ')
            ==> split_on(sts_summary(doc), ' ') == seq![
            "AWS:"@,
            str_or(doc, "Account"@, "?"@),
            str_or(doc, "Arn"@, "?"@),
        ],
{
    let acc = str_or(doc, "Account"@, "?"@);
    let arn = str_or(doc, "Arn"@, "?"@);
    reveal_strlit("AWS: ");
    reveal_strlit("AWS:");
    reveal_strlit(" ");
    lemma_spaced3("AWS:"@, acc, arn);
    assert(sts_summary(doc) =~= "AWS:"@ + " "@ + acc + " "@ + arn);
    if free_of(acc, ' ') && free_of(arn, ' ') {
        assert(free_of("AWS:"@, ' '));
        let ws = seq!["AWS:"@, acc, arn];
        assert forall|i: int| 0 <= i < ws.len() implies free_of(#[trigger] ws[i], ' ') by {}
        law_split_joined_with(ws, ' ');
    }
}

/// Where the fields hold no space, the line of a database instance reads as
/// five words: its identifier, engine, engine version, class and status (each
/// "?" when missing), in that order.
pub proof fn law_db_line_words(db: JsonValue)
    ensures
        ({
            let ws = seq![
                str_or(db, "DBInstanceIdentifier"@, "?"@),
                str_or(db, "Engine"@, "?"@),
                str_or(db, "EngineVersion"@, "?"@),
                str_or(db, "DBInstanceClass"@, "?"@),
                str_or(db, "DBInstanceStatus"@, "?"@),
            ];
            (forall|i: int| 0 <= i < 5 ==> free_of(#[trigger] ws[i], ' ')) ==> split_on(
                db_line(db),
                ' ',
            ) == ws
        }),
{
    let ws = seq![
        str_or(db, "DBInstanceIdentifier"@, "?"@),
        str_or(db, "Engine"@, "?"@),
        str_or(db, "EngineVersion"@, "?"@),
        str_or(db, "DBInstanceClass"@, "?"@),
        str_or(db, "DBInstanceStatus"@, "?"@),
    ];
    lemma_spaced5(ws[0], ws[1], ws[2], ws[3], ws[4]);
    assert(seq![ws[0], ws[1], ws[2], ws[3], ws[4]] =~= ws);
    if forall|i: int| 0 <= i < 5 ==> free_of(#[trigger] ws[i], ' ') {
        law_split_joined_with(ws, ' ');
    }
}

/// Decimal numbers, signed or not, hold neither a space nor a '/'.
proof fn lemma_signed_decimal_plain(n: int)
    ensures
        free_of(signed_decimal(n), ' '),
        free_of(signed_decimal(n), '/'),
{
    let m = if n < 0 {
        (-n) as nat
    } else {
        n as nat
    };
    law_decimal_reads_back(m);
    let d = signed_decimal(n);
    assert forall|k: int| 0 <= k < d.len() implies d[k] != ' ' && d[k] != '/' by {
        if n < 0 {
            if k > 0 {
                assert(d[k] == decimal(m)[k - 1]);
            }
        } else {
            assert(d[k] == decimal(m)[k]);
        }
    }
}

/// Where name, status and launch type hold no space, the line of a service
/// reads as four words: its name, status, "<running>/<desired>" and
/// "(<launch type>)"; the counts are the "runningCount" and "desiredCount"
/// integers (0 when missing or not an `i64`), running first.
pub proof fn law_service_line_words(svc: JsonValue)
    ensures
        ({
            let counts = signed_decimal(i64_or_zero(svc, "runningCount"@) as int) + "/"@
                + signed_decimal(i64_or_zero(svc, "desiredCount"@) as int);
            let ws = seq![
                str_or(svc, "serviceName"@, "?"@),
                str_or(svc, "status"@, "?"@),
                counts,
                "("@ + str_or(svc, "launchType"@, "?"@) + ")"@,
            ];
            &&& split_on(counts, '/') == seq![
                signed_decimal(i64_or_zero(svc, "runningCount"@) as int),
                signed_decimal(i64_or_zero(svc, "desiredCount"@) as int),
            ]
            &&& free_of(ws[0], ' ') && free_of(ws[1], ' ') && free_of(
                str_or(svc, "launchType"@, "?"@),
                ' ',
            ) ==> split_on(service_line(svc), ' ') == ws
        }),
{
    let r = signed_decimal(i64_or_zero(svc, "runningCount"@) as int);
    let d = signed_decimal(i64_or_zero(svc, "desiredCount"@) as int);
    lemma_signed_decimal_plain(i64_or_zero(svc, "runningCount"@) as int);
    lemma_signed_decimal_plain(i64_or_zero(svc, "desiredCount"@) as int);
    reveal_strlit("/");
    reveal_strlit("(");
    reveal_strlit(")");
    reveal_strlit(" (");
    reveal_strlit(" ");
    let counts = r + "/"@ + d;
    assert(joined_with(seq![r].push(d), '/') == r + seq!['/'] + d) by {
        lemma_joined_with_push(seq![r], d, '/');
    }
    assert(seq![r].push(d) =~= seq![r, d]);
    assert(counts =~= r + seq!['/'] + d);
    law_split_joined_with(seq![r, d], '/');
    let launch = str_or(svc, "launchType"@, "?"@);
    let ws = seq![
        str_or(svc, "serviceName"@, "?"@),
        str_or(svc, "status"@, "?"@),
        counts,
        "("@ + launch + ")"@,
    ];
    lemma_spaced4(ws[0], ws[1], ws[2], ws[3]);
    assert(seq![ws[0], ws[1], ws[2], ws[3]] =~= ws);
    assert(service_line(svc) =~= ws[0] + " "@ + ws[1] + " "@ + ws[2] + " "@ + ws[3]);
    if free_of(ws[0], ' ') && free_of(ws[1], ' ') && free_of(launch, ' ') {
        assert(free_of(counts, ' ')) by {
            assert forall|k: int| 0 <= k < counts.len() implies counts[k] != ' ' by {
                if k < r.len() {
                    assert(counts[k] == r[k]);
                } else if k > r.len() {
                    assert(counts[k] == d[k - r.len() - 1]);
                }
            }
        }
        assert(free_of(ws[3], ' ')) by {
            assert forall|k: int| 0 <= k < ws[3].len() implies ws[3][k] != ' ' by {
                if 0 < k <= launch.len() {
                    assert(ws[3][k] == launch[k - 1]);
                }
            }
        }
        assert forall|i: int| 0 <= i < ws.len() implies free_of(#[trigger] ws[i], ' ') by {}
        law_split_joined_with(ws, ' ');
    }
}

/// Where its fields hold no space, the line of an instance reads as five
/// words: its id, state name, type, private IP (each "?" or, for the IP, "-"
/// when missing) and its name in parentheses, in that order.
pub proof fn law_instance_line_words(inst: JsonValue)
    ensures
        ({
            let ws = seq![
                str_or(inst, "InstanceId"@, "?"@),
                str_or(field(inst, "State"@), "Name"@, "?"@),
                str_or(inst, "InstanceType"@, "?"@),
                str_or(inst, "PrivateIpAddress"@, "-"@),
                "("@ + instance_name(inst) + ")"@,
            ];
            (forall|i: int| 0 <= i < 4 ==> free_of(#[trigger] ws[i], ' ')) && free_of(
                instance_name(inst),
                ' ',
            ) ==> split_on(instance_line(inst), ' ') == ws
        }),
{
    let name = instance_name(inst);
    let ws = seq![
        str_or(inst, "InstanceId"@, "?"@),
        str_or(field(inst, "State"@), "Name"@, "?"@),
        str_or(inst, "InstanceType"@, "?"@),
        str_or(inst, "PrivateIpAddress"@, "-"@),
        "("@ + name + ")"@,
    ];
    reveal_strlit("(");
    reveal_strlit(")");
    reveal_strlit(" (");
    reveal_strlit(" ");
    lemma_spaced5(ws[0], ws[1], ws[2], ws[3], ws[4]);
    assert(seq![ws[0], ws[1], ws[2], ws[3], ws[4]] =~= ws);
    assert(instance_line(inst) =~= ws[0] + " "@ + ws[1] + " "@ + ws[2] + " "@ + ws[3] + " "@
        + ws[4]);
    if (forall|i: int| 0 <= i < 4 ==> free_of(#[trigger] ws[i], ' ')) && free_of(name, ' ') {
        assert(free_of(ws[4], ' ')) by {
            assert forall|k: int| 0 <= k < ws[4].len() implies ws[4][k] != ' ' by {
                if 0 < k <= name.len() {
                    assert(ws[4][k] == name[k - 1]);
                }
            }
        }
        assert forall|i: int| 0 <= i < ws.len() implies free_of(#[trigger] ws[i], ' ') by {
            if i < 4 {
                assert(free_of(ws[i], ' '));
            }
        }
        law_split_joined_with(ws, ' ');
    }
}

/// Where its name, status and date hold no space, the line of a stack reads
/// as three words: name, status and the day of its date.
pub proof fn law_stack_line_words(stack: JsonValue)
    ensures
        ({
            let ws = seq![
                str_or(stack, "StackName"@, "?"@),
                str_or(stack, "StackStatus"@, "?"@),
                iso_date(stack_date(stack)),
            ];
            (forall|i: int| 0 <= i < 3 ==> free_of(#[trigger] ws[i], ' ')) ==> split_on(
                stack_line(stack),
                ' ',
            ) == ws
        }),
{
    let ws = seq![
        str_or(stack, "StackName"@, "?"@),
        str_or(stack, "StackStatus"@, "?"@),
        iso_date(stack_date(stack)),
    ];
    lemma_spaced3(ws[0], ws[1], ws[2]);
    assert(seq![ws[0], ws[1], ws[2]] =~= ws);
    if forall|i: int| 0 <= i < 3 ==> free_of(#[trigger] ws[i], ' ') {
        law_split_joined_with(ws, ' ');
    }
}

/// An output line is two spaces, then, where the key holds no '=', the key
/// and the value on either side of the first '='.
pub proof fn law_output_line_key_value(out: JsonValue)
    ensures
        output_line(out).take(2) == "  "@,
        free_of(str_or(out, "OutputKey"@, "?"@), '=') && free_of(
            str_or(out, "OutputValue"@, "?"@),
            '=',
        ) ==> split_on(output_line(out).skip(2), '=') == seq![
            str_or(out, "OutputKey"@, "?"@),
            str_or(out, "OutputValue"@, "?"@),
        ],
{
    let k = str_or(out, "OutputKey"@, "?"@);
    let v = str_or(out, "OutputValue"@, "?"@);
    reveal_strlit("  ");
    reveal_strlit("=");
    assert(output_line(out).take(2) =~= "  "@);
    assert(output_line(out).skip(2) =~= k + seq!['='] + v);
    lemma_joined_with_push(seq![k], v, '=');
    assert(seq![k].push(v) =~= seq![k, v]);
    if free_of(k, '=') && free_of(v, '=') {
        law_split_joined_with(seq![k, v], '=');
    }
}

/// The instance lines of consecutive reservations are those of each
/// reservation in turn: the lines of two runs of reservations are the lines
/// of the first run followed by those of the second; a reservation with an
/// instance array has one line per instance, in order, and one without has
/// none.
pub proof fn law_ec2_lines_concatenate(a: Seq<JsonValue>, b: Seq<JsonValue>)
    ensures
        ec2_lines(a + b) == ec2_lines(a) + ec2_lines(b),
        ec2_lines(seq![]) == Seq::<Seq<char>>::empty(),
        forall|r: JsonValue|
            #![trigger ec2_lines(seq![r])]
            match array_of(field(r, "Instances"@)) {
                Some(insts) => ec2_lines(seq![r]).len() == insts.len() && forall|k: int|
                    0 <= k < insts.len() ==> ec2_lines(seq![r])[k] == instance_line(insts[k]),
                None => ec2_lines(seq![r]).len() == 0,
            },
    decreases b.len(),
{
    if b.len() == 0 {
        assert(a + b =~= a);
        assert(ec2_lines(a) + ec2_lines(b) =~= ec2_lines(a));
    } else {
        law_ec2_lines_concatenate(a, b.drop_last());
        assert((a + b).drop_last() =~= a + b.drop_last());
        assert((a + b).last() == b.last());
        assert(ec2_lines(a + b) =~= ec2_lines(a) + ec2_lines(b));
    }
    assert forall|r: JsonValue|
        #![trigger ec2_lines(seq![r])]
        match array_of(field(r, "Instances"@)) {
            Some(insts) => ec2_lines(seq![r]).len() == insts.len() && forall|k: int|
                0 <= k < insts.len() ==> ec2_lines(seq![r])[k] == instance_line(insts[k]),
            None => ec2_lines(seq![r]).len() == 0,
        } by {
        assert(seq![r].drop_last() =~= Seq::<JsonValue>::empty());
        assert(seq![r].last() == r);
        assert(ec2_lines(Seq::<JsonValue>::empty()) =~= Seq::<Seq<char>>::empty());
        assert(ec2_lines(seq![r]) == ec2_lines(seq![r].drop_last()) + reservation_lines(r));
        assert(ec2_lines(seq![r]) =~= reservation_lines(r));
    }
}

/// The short name of a service is the whole ARN where it holds no '/', and
/// otherwise the part after its last '/': an end of the ARN, free of '/',
/// right after a '/'. An element that is not a string is shown as "?".
pub proof fn law_service_short_name(arn: JsonValue)
    ensures
        str_of(arn) is None ==> service_short_name(arn) == "?"@,
        str_of(arn) matches Some(s) ==> {
            let short = service_short_name(arn);
            &&& short.is_suffix_of(s)
            &&& free_of(short, '/')
            &&& free_of(s, '/') ==> short == s
            &&& !free_of(s, '/') ==> short.len() < s.len() && s[s.len() - short.len() - 1]
                == '/'
        },
{
    if str_of(arn) is Some {
        let s = str_of(arn)->0;
        law_after_last_is_separator_free_suffix(s, '/');
        lemma_after_last_shape(s, '/');
        let short = after_last(s, '/');
        assert(free_of(short, '/')) by {
            assert forall|k: int| 0 <= k < short.len() implies short[k] != '/' by {
                if short[k] == '/' {
                    assert(short.contains('/'));
                }
            }
        }
    }
}

proof fn lemma_after_last_shape(s: Seq<char>, sep: char)
    ensures
        free_of(s, sep) ==> after_last(s, sep) == s,
        !free_of(s, sep) ==> after_last(s, sep).len() < s.len() && s[s.len() - after_last(
            s,
            sep,
        ).len() - 1] == sep,
    decreases s.len(),
{
    if s.len() > 0 {
        let prev = s.drop_last();
        lemma_after_last_shape(prev, sep);
        if s.last() != sep {
            if free_of(s, sep) {
                assert(free_of(prev, sep)) by {
                    assert forall|k: int| 0 <= k < prev.len() implies prev[k] != sep by {
                        assert(prev[k] == s[k]);
                    }
                }
                assert(prev.push(s.last()) =~= s);
            } else {
                assert(!free_of(prev, sep)) by {
                    let k = choose|k: int| 0 <= k < s.len() && s[k] == sep;
                    assert(k < prev.len());
                    assert(prev[k] == sep);
                }
                let r = after_last(prev, sep);
                assert(prev[prev.len() - r.len() - 1] == s[s.len() - (r.len() + 1) - 1]);
            }
        }
    }
}

/// The limits: twenty items per summary, thirty lines of a bucket listing.
pub proof fn law_limits()
    ensures
        MAX_ITEMS == 20,
        S3_MAX_LINES == MAX_ITEMS + 10,
{
}

} // verus!
