//! Recognising Codex records in JSON Lines logs.

use crate::text::{blank, is_blank, same_text};
use vstd::prelude::*;

verus! {

/// How many lines of a log are looked at.
pub const MAX_PROBED_LINES: usize = 64;

/// A parsed JSON value of `serde_json`, carried from the parser to its shape.
#[verifier::external_type_specification]
#[verifier::external_body]
pub struct ExValue(serde_json::Value);

/// The parse error of `serde_json`.
#[verifier::external_type_specification]
#[verifier::external_body]
pub struct ExError(serde_json::Error);

/// A JSON value as far as its object members go; every value that is not an object
/// is `Other`.
#[derive(Debug, PartialEq, Eq)]
pub enum JsonShape {
    /// The members of an object.
    Object(Vec<(String, JsonShape)>),
    /// Null, a boolean, a number, a string or an array.
    Other,
}

/// The shape of a JSON value, with its member names as texts.
pub enum JsonNode {
    Object(Seq<(Seq<char>, JsonNode)>),
    Other,
}

impl JsonShape {
    /// The shape with its member names as texts.
    pub open spec fn node(self) -> JsonNode
        decreases self,
    {
        match self {
            JsonShape::Object(members) => JsonNode::Object(
                Seq::new(
                    members@.len(),
                    |i: int|
                        if 0 <= i < members@.len() {
                            (members@[i].0@, members@[i].1.node())
                        } else {
                            arbitrary()
                        },
                ),
            ),
            JsonShape::Other => JsonNode::Other,
        }
    }
}

/// What looking at a log came to.
#[derive(Debug, Clone, Copy, PartialEq, Eq, Structural)]
pub enum JsonlProbe {
    /// A Codex record.
    Data,
    /// No record of any kind.
    Empty,
    /// Records, but no Codex record.
    Unsupported,
    /// The log could not be read.
    Inaccessible,
}

/// What one line of a log is.
#[derive(Debug, Clone, Copy, PartialEq, Eq, Structural)]
pub enum LineOutcome {
    /// The line could not be read.
    Unreadable,
    /// The line holds nothing but white space.
    Blank,
    /// The line holds something other than a Codex record.
    Foreign,
    /// The line holds a Codex record.
    Record,
}

/// What `serde_json::from_str` makes of a text: the shape of the value it spells, or
/// nothing where it is not JSON.
pub uninterp spec fn parsed_json(text: Seq<char>) -> Option<JsonNode>;

/// The shape of a parsed value, all the way down.
pub uninterp spec fn value_node(value: serde_json::Value) -> JsonNode;

/// Members with their names as texts and their values as shapes.
pub open spec fn member_nodes(members: Seq<(&String, &serde_json::Value)>) -> Seq<
    (Seq<char>, JsonNode),
> {
    members.map_values(|member: (&String, &serde_json::Value)| (member.0@, value_node(*member.1)))
}

/// Calls `serde_json::from_str` for a `serde_json::Value`: whether the text parses,
/// and the members of the value that it spells, depend on the text alone.
#[verifier::external_body]
fn parse_value(text: &str) -> (parsed: Result<serde_json::Value, serde_json::Error>)
    ensures
        match parsed {
            Ok(value) => parsed_json(text@) == Some(value_node(value)),
            Err(_) => parsed_json(text@) is None,
        },
{
    serde_json::from_str::<serde_json::Value>(text)
}

/// Reads a `serde_json::Value` one level deep with `serde_json::Map::iter`: an object
/// gives all its members, each by its name; any other value gives nothing.
#[verifier::external_body]
fn object_members(value: &serde_json::Value) -> (members: Option<
    Vec<(&String, &serde_json::Value)>,
>)
    ensures
        match members {
            Some(members) => value_node(*value) == JsonNode::Object(member_nodes(members@)),
            None => value_node(*value) is Other,
        },
{
    match value {
        serde_json::Value::Object(members) => Some(members.iter().collect()),
        serde_json::Value::Null => None,
        serde_json::Value::Bool(_) => None,
        serde_json::Value::Number(_) => None,
        serde_json::Value::String(_) => None,
        serde_json::Value::Array(_) => None,
    }
}

/// The shape of a parsed value.
fn shape_of(value: &serde_json::Value) -> (shape: JsonShape)
    ensures
        shape.node() == value_node(*value),
    decreases value_node(*value),
{
    let members = match object_members(value) {
        Some(members) => members,
        None => {
            return JsonShape::Other;
        },
    };
    let ghost nodes = member_nodes(members@);
    let mut shapes: Vec<(String, JsonShape)> = Vec::new();
    for i in 0..members.len()
        invariant
            nodes == member_nodes(members@),
            value_node(*value) == JsonNode::Object(nodes),
            shapes@.len() == i,
            forall|j: int|
                0 <= j < i ==> #[trigger] nodes[j] == (shapes@[j].0@, shapes@[j].1.node()),
    {
        let (name, member) = members[i];
        assert(nodes[i as int] == (name@, value_node(*member)));
        proof {
            let node = value_node(*value);
            assert(decreases_to!(node => node->Object_0));
            assert(decreases_to!(node->Object_0 => node->Object_0[i as int]));
            assert(decreases_to!(nodes[i as int] => nodes[i as int].1));
        }
        let shape = shape_of(member);
        shapes.push((name.clone(), shape));
    }
    let shape = JsonShape::Object(shapes);
    assert(shape.node()->Object_0 =~= nodes);
    shape
}

/// The first member of that name.
pub open spec fn find_member(members: Seq<(Seq<char>, JsonNode)>, name: Seq<char>) -> Option<
    JsonNode,
>
    decreases members.len(),
{
    if members.len() == 0 {
        None
    } else if members[0].0 == name {
        Some(members[0].1)
    } else {
        find_member(members.drop_first(), name)
    }
}

/// The member of that name, where the value is an object that has it.
pub open spec fn member_of(node: JsonNode, name: Seq<char>) -> Option<JsonNode> {
    match node {
        JsonNode::Object(members) => find_member(members, name),
        JsonNode::Other => None,
    }
}

/// What the names lead to, one inside the other.
pub open spec fn member_at(node: JsonNode, names: Seq<Seq<char>>) -> Option<JsonNode>
    decreases names.len(),
{
    if names.len() == 0 {
        Some(node)
    } else {
        match member_of(node, names[0]) {
            Some(member) => member_at(member, names.drop_first()),
            None => None,
        }
    }
}

/// Whether the value has a member of one of the names.
pub open spec fn has_any_member(node: JsonNode, names: Seq<Seq<char>>) -> bool {
    exists|i: int| 0 <= i < names.len() && member_of(node, #[trigger] names[i]) is Some
}

/// Whether one of the ways leads to a value.
pub open spec fn has_any_way(node: JsonNode, ways: Seq<Seq<Seq<char>>>) -> bool {
    exists|i: int| 0 <= i < ways.len() && member_at(node, #[trigger] ways[i]) is Some
}

/// Whether a value has the marks of a Codex record: an object with a time, with an
/// event, and with a usage, a quota or an identity.
pub open spec fn is_codex_record(node: JsonNode) -> bool {
    &&& node is Object
    &&& has_any_member(node, seq!["timestamp"@, "timestamp_ms"@, "created_at"@])
    &&& has_any_member(
        node,
        seq![
            "type"@,
            "event_type"@,
            "kind"@,
            "payload"@,
            "usage"@,
            "token_usage"@,
            "tokens"@,
        ],
    )
    &&& has_usage(node) || has_quota(node) || has_identity(node)
}

/// Whether a value tells of token usage.
pub open spec fn has_usage(node: JsonNode) -> bool {
    ||| has_any_member(node, seq!["usage"@, "token_usage"@, "tokens"@])
    ||| has_any_way(
        node,
        seq![
            seq!["payload"@, "usage"@],
            seq!["payload"@, "token_usage"@],
            seq!["payload"@, "info"@, "last_token_usage"@],
            seq!["payload"@, "info"@, "total_token_usage"@],
            seq!["response"@, "usage"@],
        ],
    )
}

/// Whether a value tells of rate limits.
pub open spec fn has_quota(node: JsonNode) -> bool {
    ||| member_of(node, "rate_limits"@) is Some
    ||| has_any_way(node, seq![seq!["payload"@, "rate_limits"@]])
}

/// Whether a value tells which model, session, request or turn it belongs to.
pub open spec fn has_identity(node: JsonNode) -> bool {
    ||| has_any_member(
        node,
        seq!["model"@, "model_name"@, "session_id"@, "request_id"@, "turn_id"@],
    )
    ||| has_any_way(
        node,
        seq![
            seq!["payload"@, "model"@],
            seq!["payload"@, "model_name"@],
            seq!["payload"@, "session_id"@],
            seq!["payload"@, "turn_id"@],
        ],
    )
}

/// What a line that was read is, given what it parses to.
pub open spec fn line_outcome(line: Seq<char>, parsed: Option<JsonNode>) -> LineOutcome {
    if is_blank(line) {
        LineOutcome::Blank
    } else if parsed is Some && is_codex_record(parsed->0) {
        LineOutcome::Record
    } else {
        LineOutcome::Foreign
    }
}

/// The lines of a log by their texts; `None` is a line that could not be read.
pub open spec fn line_texts(lines: Seq<Option<String>>) -> Seq<Option<Seq<char>>> {
    lines.map_values(
        |line: Option<String>|
            match line {
                Some(text) => Some(text@),
                None => None,
            },
    )
}

/// What the lines of a log are.
pub open spec fn line_outcomes(lines: Seq<Option<Seq<char>>>) -> Seq<LineOutcome> {
    lines.map_values(
        |line: Option<Seq<char>>|
            match line {
                Some(text) => line_outcome(text, parsed_json(text)),
                None => LineOutcome::Unreadable,
            },
    )
}

/// Whether a line ends the search: a Codex record, or a line that cannot be read.
pub open spec fn is_decisive(outcome: LineOutcome) -> bool {
    outcome is Record || outcome is Unreadable
}

/// The position of the first decisive line at or after `from`, or the length.
pub open spec fn first_decisive(outcomes: Seq<LineOutcome>, from: int) -> int
    decreases outcomes.len() - from,
{
    if from >= outcomes.len() {
        outcomes.len() as int
    } else if is_decisive(outcomes[from]) {
        from
    } else {
        first_decisive(outcomes, from + 1)
    }
}

/// What lines come to: the first decisive one settles it; without one, it matters
/// whether anything but white space was seen.
pub open spec fn probe_of(outcomes: Seq<LineOutcome>) -> JsonlProbe {
    let decisive = first_decisive(outcomes, 0);
    if decisive < outcomes.len() {
        if outcomes[decisive] is Record {
            JsonlProbe::Data
        } else {
            JsonlProbe::Inaccessible
        }
    } else if outcomes.contains(LineOutcome::Foreign) {
        JsonlProbe::Unsupported
    } else {
        JsonlProbe::Empty
    }
}

/// The lines of a log that are looked at.
pub open spec fn probed_lines(lines: Seq<Option<Seq<char>>>) -> Seq<Option<Seq<char>>> {
    if lines.len() <= MAX_PROBED_LINES {
        lines
    } else {
        lines.take(MAX_PROBED_LINES as int)
    }
}

/// What looking at a log comes to; `None` is a log that could not be opened.
pub open spec fn probe_log(lines: Option<Seq<Option<Seq<char>>>>) -> JsonlProbe {
    match lines {
        Some(lines) => probe_of(line_outcomes(probed_lines(lines))),
        None => JsonlProbe::Inaccessible,
    }
}

/// The texts of a run of names.
pub open spec fn name_texts(names: Seq<&str>) -> Seq<Seq<char>> {
    names.map_values(|name: &str| name@)
}

impl JsonShape {
    /// The member of that name, where the value is an object that has it.
    pub fn member(&self, name: &str) -> (found: Option<&JsonShape>)
        ensures
            match found {
                Some(member) => member_of(self.node(), name@) == Some(member.node()),
                None => member_of(self.node(), name@) is None,
            },
    {
        match self {
            JsonShape::Other => None,
            JsonShape::Object(members) => {
                let ghost all = self.node()->Object_0;
                assert(all.skip(0) == all);
                for i in 0..members.len()
                    invariant
                        all.len() == members@.len(),
                        forall|j: int|
                            0 <= j < members@.len() ==> #[trigger] all[j] == (
                                members@[j].0@,
                                members@[j].1.node(),
                            ),
                        find_member(all, name@) == find_member(all.skip(i as int), name@),
                        self.node() == JsonNode::Object(all),
                {
                    assert(all.skip(i as int)[0] == all[i as int]);
                    assert(all.skip(i as int).drop_first() == all.skip(i + 1));
                    if same_text(members[i].0.as_str(), name) {
                        return Some(&members[i].1);
                    }
                }
                None
            },
        }
    }
}

/// Whether the value has a member of one of the names.
pub fn object_has_key(value: &JsonShape, keys: &[&str]) -> (yes: bool)
    ensures
        yes == has_any_member(value.node(), name_texts(keys@)),
{
    let ghost names = name_texts(keys@);
    for i in 0..keys.len()
        invariant
            names == name_texts(keys@),
            forall|j: int| 0 <= j < i ==> member_of(value.node(), #[trigger] names[j]) is None,
    {
        assert(names[i as int] == keys@[i as int]@);
        if value.member(keys[i]).is_some() {
            return true;
        }
    }
    false
}

/// Whether the names lead to a value, one inside the other.
fn has_way(value: &JsonShape, way: &[&str]) -> (yes: bool)
    ensures
        yes == member_at(value.node(), name_texts(way@)) is Some,
{
    let ghost names = name_texts(way@);
    let mut current: &JsonShape = value;
    assert(names.skip(0) == names);
    for i in 0..way.len()
        invariant
            names == name_texts(way@),
            member_at(value.node(), names) == member_at(current.node(), names.skip(i as int)),
    {
        assert(names.skip(i as int)[0] == way@[i as int]@);
        assert(names.skip(i as int).drop_first() == names.skip(i + 1));
        match current.member(way[i]) {
            Some(member) => {
                current = member;
            },
            None => {
                return false;
            },
        }
    }
    true
}

/// The texts of a list of ways.
pub open spec fn way_texts(ways: Seq<&[&str]>) -> Seq<Seq<Seq<char>>> {
    ways.map_values(|way: &[&str]| name_texts(way@))
}

/// Whether one of the ways leads to a value.
pub fn has_nested_key(value: &JsonShape, paths: &[&[&str]]) -> (yes: bool)
    ensures
        yes == has_any_way(value.node(), way_texts(paths@)),
{
    let ghost ways = way_texts(paths@);
    for i in 0..paths.len()
        invariant
            ways == way_texts(paths@),
            forall|j: int| 0 <= j < i ==> member_at(value.node(), #[trigger] ways[j]) is None,
    {
        assert(ways[i as int] == name_texts(paths@[i as int]@));
        if has_way(value, paths[i]) {
            return true;
        }
    }
    false
}

/// Whether a value has the marks of a Codex record.
pub fn plausible_codex_record(value: &JsonShape) -> (yes: bool)
    ensures
        yes == is_codex_record(value.node()),
{
    match value {
        JsonShape::Other => {
            return false;
        },
        JsonShape::Object(_) => {},
    }
    let times: [&str; 3] = ["timestamp", "timestamp_ms", "created_at"];
    let events: [&str; 7] = [
        "type",
        "event_type",
        "kind",
        "payload",
        "usage",
        "token_usage",
        "tokens",
    ];
    let usages: [&str; 3] = ["usage", "token_usage", "tokens"];
    let usage_ways: [&[&str]; 5] = [
        &["payload", "usage"],
        &["payload", "token_usage"],
        &["payload", "info", "last_token_usage"],
        &["payload", "info", "total_token_usage"],
        &["response", "usage"],
    ];
    let quota_ways: [&[&str]; 1] = [&["payload", "rate_limits"]];
    let identities: [&str; 5] = ["model", "model_name", "session_id", "request_id", "turn_id"];
    let identity_ways: [&[&str]; 4] = [
        &["payload", "model"],
        &["payload", "model_name"],
        &["payload", "session_id"],
        &["payload", "turn_id"],
    ];
    proof {
        assert(name_texts(times@) =~= seq!["timestamp"@, "timestamp_ms"@, "created_at"@]);
        assert(name_texts(events@) =~= seq![
            "type"@,
            "event_type"@,
            "kind"@,
            "payload"@,
            "usage"@,
            "token_usage"@,
            "tokens"@,
        ]);
        assert(name_texts(usages@) =~= seq!["usage"@, "token_usage"@, "tokens"@]);
        assert(way_texts(usage_ways@) =~~= seq![
            seq!["payload"@, "usage"@],
            seq!["payload"@, "token_usage"@],
            seq!["payload"@, "info"@, "last_token_usage"@],
            seq!["payload"@, "info"@, "total_token_usage"@],
            seq!["response"@, "usage"@],
        ]);
        assert(way_texts(quota_ways@) =~~= seq![seq!["payload"@, "rate_limits"@]]);
        assert(name_texts(identities@) =~= seq![
            "model"@,
            "model_name"@,
            "session_id"@,
            "request_id"@,
            "turn_id"@,
        ]);
        assert(way_texts(identity_ways@) =~~= seq![
            seq!["payload"@, "model"@],
            seq!["payload"@, "model_name"@],
            seq!["payload"@, "session_id"@],
            seq!["payload"@, "turn_id"@],
        ]);
    }
    let has_timestamp = object_has_key(value, &times);
    let has_event_marker = object_has_key(value, &events);
    let has_usage = object_has_key(value, &usages) || has_nested_key(value, &usage_ways);
    let has_quota = value.member("rate_limits").is_some() || has_nested_key(value, &quota_ways);
    let has_identity = object_has_key(value, &identities) || has_nested_key(value, &identity_ways);
    has_timestamp && has_event_marker && (has_usage || has_quota || has_identity)
}

/// The shape of an optional value.
pub open spec fn maybe_node(shape: Option<&JsonShape>) -> Option<JsonNode> {
    match shape {
        Some(shape) => Some(shape.node()),
        None => None,
    }
}

/// What a line that was read is, given what it parses to.
pub fn judge_line(line: &str, parsed: Option<&JsonShape>) -> (outcome: LineOutcome)
    ensures
        outcome == line_outcome(line@, maybe_node(parsed)),
{
    if blank(line) {
        return LineOutcome::Blank;
    }
    match parsed {
        Some(value) => if plausible_codex_record(value) {
            LineOutcome::Record
        } else {
            LineOutcome::Foreign
        },
        None => LineOutcome::Foreign,
    }
}

/// The shape of the JSON value that a text spells.
pub fn parse_shape(text: &str) -> (shape: Option<JsonShape>)
    ensures
        match shape {
            Some(shape) => parsed_json(text@) == Some(shape.node()),
            None => parsed_json(text@) is None,
        },
{
    match parse_value(text) {
        Ok(value) => Some(shape_of(&value)),
        Err(_) => None,
    }
}

/// What looking at a log comes to. `lines` are the lines in order, `None` among them
/// for one that could not be read; there are no lines for a log that could not be
/// opened.
pub fn probe_jsonl(lines: Option<&Vec<Option<String>>>) -> (probe: JsonlProbe)
    ensures
        probe == probe_log(
            match lines {
                Some(lines) => Some(line_texts(lines@)),
                None => None,
            },
        ),
{
    let log = match lines {
        Some(log) => log,
        None => {
            return JsonlProbe::Inaccessible;
        },
    };
    let limit: usize = if log.len() <= MAX_PROBED_LINES {
        log.len()
    } else {
        MAX_PROBED_LINES
    };
    let ghost outcomes = line_outcomes(probed_lines(line_texts(log@)));
    let mut saw_record = false;
    for i in 0..limit
        invariant
            lines == Some(log),
            limit <= log@.len(),
            outcomes == line_outcomes(probed_lines(line_texts(log@))),
            outcomes.len() == limit,
            first_decisive(outcomes, 0) == first_decisive(outcomes, i as int),
            saw_record == outcomes.take(i as int).contains(LineOutcome::Foreign),
    {
        let ghost seen = outcomes.take(i as int);
        assert(outcomes.take(i + 1) == seen.push(outcomes[i as int]));
        match &log[i] {
            None => {
                assert(outcomes[i as int] == LineOutcome::Unreadable);
                return JsonlProbe::Inaccessible;
            },
            Some(line) => {
                if blank(line.as_str()) {
                    assert(outcomes[i as int] == LineOutcome::Blank);
                    proof {
                        lemma_push_contains(seen, LineOutcome::Blank);
                    }
                } else {
                    let parsed = parse_shape(line.as_str());
                    let outcome = judge_line(line.as_str(), parsed.as_ref());
                    assert(outcomes[i as int] == outcome);
                    if outcome == LineOutcome::Record {
                        return JsonlProbe::Data;
                    }
                    saw_record = true;
                    proof {
                        lemma_push_contains(seen, LineOutcome::Foreign);
                    }
                }
            },
        }
    }
    assert(outcomes.take(limit as int) == outcomes);
    if saw_record {
        JsonlProbe::Unsupported
    } else {
        JsonlProbe::Empty
    }
}

/// A pushed outcome is contained, and nothing else comes or goes.
proof fn lemma_push_contains(outcomes: Seq<LineOutcome>, last: LineOutcome)
    ensures
        outcomes.push(last).contains(LineOutcome::Foreign) == (outcomes.contains(
            LineOutcome::Foreign,
        ) || last is Foreign),
{
    let pushed = outcomes.push(last);
    if outcomes.contains(LineOutcome::Foreign) {
        let i = choose|i: int| 0 <= i < outcomes.len() && outcomes[i] == LineOutcome::Foreign;
        assert(pushed[i] == LineOutcome::Foreign);
    }
    if last is Foreign {
        assert(pushed[outcomes.len() as int] == LineOutcome::Foreign);
    }
}

/// Lines past the limit make no difference.
pub proof fn law_only_the_first_lines_count(
    lines: Seq<Option<Seq<char>>>,
    more: Seq<Option<Seq<char>>>,
)
    requires
        lines.len() >= MAX_PROBED_LINES,
    ensures
        probe_log(Some(lines + more)) == probe_log(Some(lines)),
{
    assert(probed_lines(lines + more) =~= lines.take(MAX_PROBED_LINES as int));
    assert(probed_lines(lines) =~= lines.take(MAX_PROBED_LINES as int));
}

/// The first decisive line is decisive, and no line before it is.
proof fn lemma_first_decisive(outcomes: Seq<LineOutcome>, from: int)
    requires
        0 <= from <= outcomes.len(),
    ensures
        from <= first_decisive(outcomes, from) <= outcomes.len(),
        first_decisive(outcomes, from) < outcomes.len() ==> is_decisive(
            outcomes[first_decisive(outcomes, from)],
        ),
        forall|i: int|
            from <= i < first_decisive(outcomes, from) ==> !is_decisive(#[trigger] outcomes[i]),
    decreases outcomes.len() - from,
{
    if from < outcomes.len() && !is_decisive(outcomes[from]) {
        lemma_first_decisive(outcomes, from + 1);
    }
}

/// Lines come to `Data` just where a Codex record stands among them with no
/// unreadable line before it, and to `Empty` just where all of them are blank.
pub proof fn law_probe_verdicts(outcomes: Seq<LineOutcome>)
    ensures
        probe_of(outcomes) is Data <==> exists|k: int|
            {
                &&& 0 <= k < outcomes.len()
                &&& #[trigger] outcomes[k] is Record
                &&& forall|j: int| 0 <= j < k ==> !(#[trigger] outcomes[j] is Unreadable)
            },
        probe_of(outcomes) is Empty <==> forall|k: int|
            0 <= k < outcomes.len() ==> #[trigger] outcomes[k] is Blank,
        probe_of(outcomes) is Inaccessible <==> exists|k: int|
            {
                &&& 0 <= k < outcomes.len()
                &&& #[trigger] outcomes[k] is Unreadable
                &&& forall|j: int| 0 <= j < k ==> !(#[trigger] outcomes[j] is Record)
            },
{
    lemma_first_decisive(outcomes, 0);
    let decisive = first_decisive(outcomes, 0);
    if decisive == outcomes.len() {
        if outcomes.contains(LineOutcome::Foreign) {
            let k = choose|k: int| 0 <= k < outcomes.len() && outcomes[k] == LineOutcome::Foreign;
            assert(!(outcomes[k] is Blank));
        } else {
            assert forall|k: int|
                0 <= k < outcomes.len() implies #[trigger] outcomes[k] is Blank by {
                assert(!is_decisive(outcomes[k]));
                assert(outcomes[k] != LineOutcome::Foreign);
            }
        }
    } else {
        assert(is_decisive(outcomes[decisive]));
        assert(!(outcomes[decisive] is Blank));
    }
}

/// What a name finds is still found once more members follow.
proof fn lemma_find_member_extends(
    members: Seq<(Seq<char>, JsonNode)>,
    more: Seq<(Seq<char>, JsonNode)>,
    name: Seq<char>,
)
    ensures
        find_member(members, name) is Some ==> find_member(members + more, name) == find_member(
            members,
            name,
        ),
    decreases members.len(),
{
    if members.len() > 0 && members[0].0 != name {
        lemma_find_member_extends(members.drop_first(), more, name);
        assert((members + more).drop_first() =~= members.drop_first() + more);
    }
}

/// Whether one value is another with members added: at the top, at any place among the
/// members that are there, or inside members that are objects, at any depth.
pub open spec fn adds_members(node: JsonNode, longer: JsonNode) -> bool
    decreases node,
{
    match (node, longer) {
        (JsonNode::Object(members), JsonNode::Object(more)) => keeps_members(members, more),
        (JsonNode::Other, JsonNode::Other) => true,
        _ => false,
    }
}

/// Whether each of the members is found among `more` under its name, itself or with
/// members added.
pub open spec fn keeps_members(
    members: Seq<(Seq<char>, JsonNode)>,
    more: Seq<(Seq<char>, JsonNode)>,
) -> bool
    decreases members,
{
    if members.len() == 0 {
        true
    } else {
        &&& keeps_members(members.drop_first(), more)
        &&& match find_member(more, members[0].0) {
            Some(member) => adds_members(members[0].1, member),
            None => false,
        }
    }
}

/// Whether every way that leads to something in one value does so in the other.
pub open spec fn keeps_ways(node: JsonNode, longer: JsonNode) -> bool {
    forall|names: Seq<Seq<char>>| #[trigger]
        member_at(node, names) is Some ==> member_at(longer, names) is Some
}

/// A kept member is found, itself or with members added.
proof fn lemma_kept_member(
    members: Seq<(Seq<char>, JsonNode)>,
    more: Seq<(Seq<char>, JsonNode)>,
    name: Seq<char>,
)
    requires
        keeps_members(members, more),
        find_member(members, name) is Some,
    ensures
        find_member(more, name) is Some,
        adds_members(find_member(members, name)->0, find_member(more, name)->0),
    decreases members.len(),
{
    if members[0].0 != name {
        lemma_kept_member(members.drop_first(), more, name);
    }
}

/// A way leads on where members are added.
proof fn lemma_way_stays(node: JsonNode, longer: JsonNode, names: Seq<Seq<char>>)
    requires
        adds_members(node, longer),
        member_at(node, names) is Some,
    ensures
        member_at(longer, names) is Some,
    decreases names.len(),
{
    if names.len() > 0 {
        if let (JsonNode::Object(members), JsonNode::Object(more)) = (node, longer) {
            lemma_kept_member(members, more, names[0]);
            lemma_way_stays(
                member_of(node, names[0])->0,
                member_of(longer, names[0])->0,
                names.drop_first(),
            );
        }
    }
}

/// A Codex record is known by where its ways lead: a value in which they all lead
/// somewhere is one too.
pub proof fn law_records_are_known_by_their_ways(node: JsonNode, longer: JsonNode)
    requires
        is_codex_record(node),
        keeps_ways(node, longer),
    ensures
        is_codex_record(longer),
{
    assert forall|name: Seq<char>| #[trigger] member_of(node, name) is Some implies member_of(
        longer,
        name,
    ) is Some by {
        let way = seq![name];
        assert(way.drop_first() =~= Seq::<Seq<char>>::empty());
        assert(member_at(node, way) is Some) by {
            assert(member_at(member_of(node, name)->0, way.drop_first()) is Some);
        }
        assert(member_at(longer, way) is Some);
    }
    assert forall|names: Seq<Seq<char>>| has_any_member(node, names) implies has_any_member(
        longer,
        names,
    ) by {
        let i = choose|i: int|
            0 <= i < names.len() && member_of(node, #[trigger] names[i]) is Some;
        assert(member_of(longer, names[i]) is Some);
    }
    assert forall|ways: Seq<Seq<Seq<char>>>| has_any_way(node, ways) implies has_any_way(
        longer,
        ways,
    ) by {
        let i = choose|i: int| 0 <= i < ways.len() && member_at(node, #[trigger] ways[i]) is Some;
        assert(member_at(longer, ways[i]) is Some);
    }
    let times = seq!["timestamp"@, "timestamp_ms"@, "created_at"@];
    let i = choose|i: int| 0 <= i < times.len() && member_of(node, #[trigger] times[i]) is Some;
    assert(member_of(longer, times[i]) is Some);
}

/// A Codex record stays one when members are added, wherever and at whatever depth.
pub proof fn law_records_survive_additions(node: JsonNode, longer: JsonNode)
    requires
        is_codex_record(node),
        adds_members(node, longer),
    ensures
        is_codex_record(longer),
{
    assert forall|names: Seq<Seq<char>>| #[trigger]
        member_at(node, names) is Some implies member_at(longer, names) is Some by {
        lemma_way_stays(node, longer, names);
    }
    law_records_are_known_by_their_ways(node, longer);
}

/// A Codex record stays one when members follow those that it has, whatever their
/// names are.
pub proof fn law_records_survive_more_members(
    members: Seq<(Seq<char>, JsonNode)>,
    more: Seq<(Seq<char>, JsonNode)>,
)
    requires
        is_codex_record(JsonNode::Object(members)),
    ensures
        is_codex_record(JsonNode::Object(members + more)),
{
    let node = JsonNode::Object(members);
    let longer = JsonNode::Object(members + more);
    assert forall|names: Seq<Seq<char>>| #[trigger]
        member_at(node, names) is Some implies member_at(longer, names) is Some by {
        if names.len() > 0 {
            lemma_find_member_extends(members, more, names[0]);
        }
    }
    law_records_are_known_by_their_ways(node, longer);
}

/// Whether a member of that name tells a time.
pub open spec fn names_a_time(name: Seq<char>) -> bool {
    name == "timestamp"@ || name == "timestamp_ms"@ || name == "created_at"@
}

/// Whether a member of that name tells that something happened.
pub open spec fn names_an_event(name: Seq<char>) -> bool {
    ||| name == "type"@
    ||| name == "event_type"@
    ||| name == "kind"@
    ||| name == "payload"@
    ||| name == "usage"@
    ||| name == "token_usage"@
    ||| name == "tokens"@
}

/// Whether the way leads to what a record is about: a usage, a quota or an identity.
pub open spec fn leads_to_a_subject(way: Seq<Seq<char>>) -> bool {
    ||| way == seq!["usage"@]
    ||| way == seq!["token_usage"@]
    ||| way == seq!["tokens"@]
    ||| way == seq!["payload"@, "usage"@]
    ||| way == seq!["payload"@, "token_usage"@]
    ||| way == seq!["payload"@, "info"@, "last_token_usage"@]
    ||| way == seq!["payload"@, "info"@, "total_token_usage"@]
    ||| way == seq!["response"@, "usage"@]
    ||| way == seq!["rate_limits"@]
    ||| way == seq!["payload"@, "rate_limits"@]
    ||| way == seq!["model"@]
    ||| way == seq!["model_name"@]
    ||| way == seq!["session_id"@]
    ||| way == seq!["request_id"@]
    ||| way == seq!["turn_id"@]
    ||| way == seq!["payload"@, "model"@]
    ||| way == seq!["payload"@, "model_name"@]
    ||| way == seq!["payload"@, "session_id"@]
    ||| way == seq!["payload"@, "turn_id"@]
}

/// A way of one name leads where the member of that name is.
proof fn lemma_short_way(node: JsonNode, name: Seq<char>)
    ensures
        member_at(node, seq![name]) == member_of(node, name),
{
    let way = seq![name];
    assert(way.drop_first() =~= Seq::<Seq<char>>::empty());
    if let Some(member) = member_of(node, name) {
        assert(member_at(member, way.drop_first()) == Some(member));
    }
}

/// One of the names is enough.
proof fn lemma_any_member(node: JsonNode, names: Seq<Seq<char>>, i: int)
    requires
        0 <= i < names.len(),
        member_of(node, names[i]) is Some,
    ensures
        has_any_member(node, names),
{
}

/// One of the ways is enough.
proof fn lemma_any_way(node: JsonNode, ways: Seq<Seq<Seq<char>>>, i: int)
    requires
        0 <= i < ways.len(),
        member_at(node, ways[i]) is Some,
    ensures
        has_any_way(node, ways),
{
}

/// Any time with any event and any subject makes a Codex record: no choice of one of
/// them asks for a choice of another.
pub proof fn law_every_combination_is_a_record(
    node: JsonNode,
    time: Seq<char>,
    event: Seq<char>,
    subject: Seq<Seq<char>>,
)
    requires
        names_a_time(time),
        names_an_event(event),
        leads_to_a_subject(subject),
        member_at(node, seq![time]) is Some,
        member_at(node, seq![event]) is Some,
        member_at(node, subject) is Some,
    ensures
        is_codex_record(node),
{
    lemma_short_way(node, time);
    lemma_short_way(node, event);
    let times = seq!["timestamp"@, "timestamp_ms"@, "created_at"@];
    assert(times[0] == "timestamp"@ && times[1] == "timestamp_ms"@ && times[2] == "created_at"@);
    lemma_any_member(
        node,
        times,
        if time == "timestamp"@ {
            0
        } else if time == "timestamp_ms"@ {
            1
        } else {
            2
        },
    );
    let events = seq![
        "type"@,
        "event_type"@,
        "kind"@,
        "payload"@,
        "usage"@,
        "token_usage"@,
        "tokens"@,
    ];
    lemma_any_member(
        node,
        events,
        if event == "type"@ {
            0
        } else if event == "event_type"@ {
            1
        } else if event == "kind"@ {
            2
        } else if event == "payload"@ {
            3
        } else if event == "usage"@ {
            4
        } else if event == "token_usage"@ {
            5
        } else {
            6
        },
    );
    lemma_subject_counts(node, subject);
}

/// Any subject is a usage, a quota or an identity.
proof fn lemma_subject_counts(node: JsonNode, subject: Seq<Seq<char>>)
    requires
        leads_to_a_subject(subject),
        member_at(node, subject) is Some,
    ensures
        has_usage(node) || has_quota(node) || has_identity(node),
{
    let usages = seq!["usage"@, "token_usage"@, "tokens"@];
    let usage_ways = seq![
        seq!["payload"@, "usage"@],
        seq!["payload"@, "token_usage"@],
        seq!["payload"@, "info"@, "last_token_usage"@],
        seq!["payload"@, "info"@, "total_token_usage"@],
        seq!["response"@, "usage"@],
    ];
    let identities = seq!["model"@, "model_name"@, "session_id"@, "request_id"@, "turn_id"@];
    let identity_ways = seq![
        seq!["payload"@, "model"@],
        seq!["payload"@, "model_name"@],
        seq!["payload"@, "session_id"@],
        seq!["payload"@, "turn_id"@],
    ];
    if subject.len() == 1 {
        lemma_short_way(node, subject[0]);
        assert(subject =~= seq![subject[0]]);
        if exists|i: int| 0 <= i < 3 && #[trigger] usages[i] == subject[0] {
            lemma_any_member(node, usages, choose|i: int| 0 <= i < 3 && usages[i] == subject[0]);
        } else if exists|i: int| 0 <= i < 5 && #[trigger] identities[i] == subject[0] {
            lemma_any_member(
                node,
                identities,
                choose|i: int| 0 <= i < 5 && identities[i] == subject[0],
            );
        } else {
            assert(usages[0] == "usage"@ && usages[1] == "token_usage"@ && usages[2] == "tokens"@);
            assert(identities[0] == "model"@ && identities[1] == "model_name"@);
            assert(identities[2] == "session_id"@ && identities[3] == "request_id"@);
            assert(identities[4] == "turn_id"@);
        }
    } else if exists|i: int| 0 <= i < 5 && #[trigger] usage_ways[i] == subject {
        lemma_any_way(node, usage_ways, choose|i: int| 0 <= i < 5 && usage_ways[i] == subject);
    } else if exists|i: int| 0 <= i < 4 && #[trigger] identity_ways[i] == subject {
        lemma_any_way(
            node,
            identity_ways,
            choose|i: int| 0 <= i < 4 && identity_ways[i] == subject,
        );
    } else {
        assert(usage_ways[0] == seq!["payload"@, "usage"@]);
        assert(usage_ways[1] == seq!["payload"@, "token_usage"@]);
        assert(usage_ways[2] == seq!["payload"@, "info"@, "last_token_usage"@]);
        assert(usage_ways[3] == seq!["payload"@, "info"@, "total_token_usage"@]);
        assert(usage_ways[4] == seq!["response"@, "usage"@]);
        assert(identity_ways[0] == seq!["payload"@, "model"@]);
        assert(identity_ways[1] == seq!["payload"@, "model_name"@]);
        assert(identity_ways[2] == seq!["payload"@, "session_id"@]);
        assert(identity_ways[3] == seq!["payload"@, "turn_id"@]);
        lemma_any_way(node, seq![seq!["payload"@, "rate_limits"@]], 0);
    }
}

/// Whether a value has a time.
pub open spec fn tells_a_time(node: JsonNode) -> bool {
    exists|name: Seq<char>|
        names_a_time(name) && member_at(node, #[trigger] seq![name]) is Some
}

/// Whether a value has an event.
pub open spec fn tells_an_event(node: JsonNode) -> bool {
    exists|name: Seq<char>|
        names_an_event(name) && member_at(node, #[trigger] seq![name]) is Some
}

/// Whether a value has a subject.
pub open spec fn tells_a_subject(node: JsonNode) -> bool {
    exists|way: Seq<Seq<char>>|
        leads_to_a_subject(way) && #[trigger] member_at(node, way) is Some
}

/// A Codex record is just what has a time, an event and a subject; a value that lacks
/// one of the three is none.
pub proof fn law_records_are_what_has_all_three(node: JsonNode)
    ensures
        is_codex_record(node) <==> tells_a_time(node) && tells_an_event(node) && tells_a_subject(
            node,
        ),
{
    if tells_a_time(node) && tells_an_event(node) && tells_a_subject(node) {
        let time = choose|name: Seq<char>|
            names_a_time(name) && member_at(node, #[trigger] seq![name]) is Some;
        let event = choose|name: Seq<char>|
            names_an_event(name) && member_at(node, #[trigger] seq![name]) is Some;
        let subject = choose|way: Seq<Seq<char>>|
            leads_to_a_subject(way) && #[trigger] member_at(node, way) is Some;
        law_every_combination_is_a_record(node, time, event, subject);
    }
    if is_codex_record(node) {
        lemma_time_found(node);
        lemma_event_found(node);
        lemma_subject_found(node);
    }
}

/// A record has a time.
proof fn lemma_time_found(node: JsonNode)
    requires
        is_codex_record(node),
    ensures
        tells_a_time(node),
{
    let names = seq!["timestamp"@, "timestamp_ms"@, "created_at"@];
    let i = choose|i: int| 0 <= i < names.len() && member_of(node, #[trigger] names[i]) is Some;
    lemma_short_way(node, names[i]);
    assert(names_a_time(names[i]));
}

/// A record has an event.
proof fn lemma_event_found(node: JsonNode)
    requires
        is_codex_record(node),
    ensures
        tells_an_event(node),
{
    let names = seq![
        "type"@,
        "event_type"@,
        "kind"@,
        "payload"@,
        "usage"@,
        "token_usage"@,
        "tokens"@,
    ];
    let i = choose|i: int| 0 <= i < names.len() && member_of(node, #[trigger] names[i]) is Some;
    lemma_short_way(node, names[i]);
    assert(names_an_event(names[i]));
}

/// A record has a subject.
proof fn lemma_subject_found(node: JsonNode)
    requires
        is_codex_record(node),
    ensures
        tells_a_subject(node),
{
    let usages = seq!["usage"@, "token_usage"@, "tokens"@];
    let usage_ways = seq![
        seq!["payload"@, "usage"@],
        seq!["payload"@, "token_usage"@],
        seq!["payload"@, "info"@, "last_token_usage"@],
        seq!["payload"@, "info"@, "total_token_usage"@],
        seq!["response"@, "usage"@],
    ];
    let quota_ways = seq![seq!["payload"@, "rate_limits"@]];
    let identities = seq!["model"@, "model_name"@, "session_id"@, "request_id"@, "turn_id"@];
    let identity_ways = seq![
        seq!["payload"@, "model"@],
        seq!["payload"@, "model_name"@],
        seq!["payload"@, "session_id"@],
        seq!["payload"@, "turn_id"@],
    ];
    if has_any_member(node, usages) {
        let i = choose|i: int|
            0 <= i < usages.len() && member_of(node, #[trigger] usages[i]) is Some;
        lemma_short_way(node, usages[i]);
        assert(leads_to_a_subject(seq![usages[i]]));
    } else if has_any_way(node, usage_ways) {
        let i = choose|i: int|
            0 <= i < usage_ways.len() && member_at(node, #[trigger] usage_ways[i]) is Some;
        assert(leads_to_a_subject(usage_ways[i]));
    } else if member_of(node, "rate_limits"@) is Some {
        lemma_short_way(node, "rate_limits"@);
        assert(leads_to_a_subject(seq!["rate_limits"@]));
    } else if has_any_way(node, quota_ways) {
        let i = choose|i: int|
            0 <= i < quota_ways.len() && member_at(node, #[trigger] quota_ways[i]) is Some;
        assert(leads_to_a_subject(quota_ways[i]));
    } else if has_any_member(node, identities) {
        let i = choose|i: int|
            0 <= i < identities.len() && member_of(node, #[trigger] identities[i]) is Some;
        lemma_short_way(node, identities[i]);
        assert(leads_to_a_subject(seq![identities[i]]));
    } else {
        let i = choose|i: int|
            0 <= i < identity_ways.len() && member_at(node, #[trigger] identity_ways[i]) is Some;
        assert(leads_to_a_subject(identity_ways[i]));
    }
}

/// A member is found under its name, the first one where there are several; a name
/// that no member has finds nothing, and nothing is found in what is not an object. A
/// way leads member by member, and no way at all leads to the value itself.
pub proof fn law_members_are_found_by_name(
    members: Seq<(Seq<char>, JsonNode)>,
    at: int,
    name: Seq<char>,
    way: Seq<Seq<char>>,
)
    requires
        0 <= at <= members.len(),
        forall|i: int| 0 <= i < at ==> (#[trigger] members[i]).0 != name,
        at < members.len() ==> members[at].0 == name,
    ensures
        at < members.len() ==> member_at(JsonNode::Object(members), seq![name]) == Some(
            members[at].1,
        ),
        at < members.len() ==> member_at(JsonNode::Object(members), seq![name] + way) == member_at(
            members[at].1,
            way,
        ),
        at == members.len() ==> member_at(JsonNode::Object(members), seq![name] + way) is None,
        member_at(JsonNode::Other, seq![name] + way) is None,
        member_at(JsonNode::Object(members), Seq::<Seq<char>>::empty()) == Some(
            JsonNode::Object(members),
        ),
{
    lemma_short_way(JsonNode::Object(members), name);
    lemma_found_member(members, at, name);
    assert((seq![name] + way).drop_first() =~= way);
}

/// The first member of a name is found.
proof fn lemma_found_member(
    members: Seq<(Seq<char>, JsonNode)>,
    at: int,
    name: Seq<char>,
)
    requires
        0 <= at <= members.len(),
        forall|i: int| 0 <= i < at ==> (#[trigger] members[i]).0 != name,
        at < members.len() ==> members[at].0 == name,
    ensures
        find_member(members, name) == (if at < members.len() {
            Some(members[at].1)
        } else {
            None
        }),
    decreases at,
{
    if at > 0 {
        assert(members[0].0 != name);
        let rest = members.drop_first();
        assert forall|i: int| 0 <= i < at - 1 implies (#[trigger] rest[i]).0 != name by {
            assert(rest[i] == members[i + 1]);
        }
        lemma_found_member(rest, at - 1, name);
    }
}

/// Whether a line was read, is not blank, and spells a value with a time, an event and a
/// subject.
#[verifier::opaque]
pub open spec fn spells_a_record(line: Option<Seq<char>>) -> bool {
    &&& line is Some
    &&& !is_blank(line->0)
    &&& parsed_json(line->0) is Some
    &&& tells_a_time(parsed_json(line->0)->0)
    &&& tells_an_event(parsed_json(line->0)->0)
    &&& tells_a_subject(parsed_json(line->0)->0)
}

/// Whether a line is among the first sixty-four of a log.
pub open spec fn is_early(lines: Seq<Option<Seq<char>>>, at: int) -> bool {
    0 <= at < lines.len() && at < 64
}

/// Whether an outcome is what a line is.
spec fn fits(line: Option<Seq<char>>, outcome: LineOutcome) -> bool {
    &&& (outcome is Record <==> spells_a_record(line))
    &&& (outcome is Unreadable <==> line is None)
    &&& (outcome is Blank <==> line is Some && is_blank(line->0))
}

/// Whether outcomes are what the first lines of a log are.
spec fn fit(lines: Seq<Option<Seq<char>>>, outcomes: Seq<LineOutcome>) -> bool {
    &&& outcomes.len() == (if lines.len() < 64 {
        lines.len()
    } else {
        64
    })
    &&& forall|k: int| 0 <= k < outcomes.len() ==> fits(lines[k], #[trigger] outcomes[k])
}

/// What one line is, in terms of the line.
proof fn lemma_line_fits(line: Option<Seq<char>>)
    ensures
        fits(
            line,
            match line {
                Some(text) => line_outcome(text, parsed_json(text)),
                None => LineOutcome::Unreadable,
            },
        ),
{
    reveal(spells_a_record);
    if let Some(text) = line {
        if let Some(node) = parsed_json(text) {
            law_records_are_what_has_all_three(node);
        }
    }
}

/// What the first lines of a log are, in terms of the lines.
proof fn lemma_lines_fit(lines: Seq<Option<Seq<char>>>)
    ensures
        fit(lines, line_outcomes(probed_lines(lines))),
{
    let outcomes = line_outcomes(probed_lines(lines));
    assert forall|k: int| 0 <= k < outcomes.len() implies fits(
        lines[k],
        #[trigger] outcomes[k],
    ) by {
        assert(probed_lines(lines)[k] == lines[k]);
        lemma_line_fits(lines[k]);
    }
}

/// Whether a line makes a log one with data: it is early, spells a record, and all lines
/// before it could be read.
pub open spec fn settles_for_data(lines: Seq<Option<Seq<char>>>, k: int) -> bool {
    &&& is_early(lines, k)
    &&& spells_a_record(lines[k])
    &&& forall|j: int| 0 <= j < k ==> #[trigger] lines[j] is Some
}

/// Whether a line makes a log inaccessible: it is early, could not be read, and no line
/// before it spells a record.
pub open spec fn settles_for_trouble(lines: Seq<Option<Seq<char>>>, k: int) -> bool {
    &&& is_early(lines, k)
    &&& lines[k] is None
    &&& forall|j: int| 0 <= j < k ==> !spells_a_record(#[trigger] lines[j])
}

/// When a log has data.
proof fn lemma_log_data(lines: Seq<Option<Seq<char>>>, outcomes: Seq<LineOutcome>)
    requires
        fit(lines, outcomes),
    ensures
        probe_of(outcomes) is Data <==> exists|k: int| #[trigger] settles_for_data(lines, k),
{
    let first = first_decisive(outcomes, 0);
    lemma_first_decisive(outcomes, 0);
    if probe_of(outcomes) is Data {
        assert(fits(lines[first], outcomes[first]));
        assert forall|j: int| 0 <= j < first implies #[trigger] lines[j] is Some by {
            assert(!is_decisive(outcomes[j]));
        }
        assert(settles_for_data(lines, first));
    }
    if exists|k: int| #[trigger] settles_for_data(lines, k) {
        let k = choose|k: int| #[trigger] settles_for_data(lines, k);
        assert(is_decisive(outcomes[k]));
        assert(first <= k);
        assert(is_decisive(outcomes[first]));
        if first < k {
            assert(lines[first] is Some);
        }
    }
}

/// When a log is inaccessible.
proof fn lemma_log_trouble(lines: Seq<Option<Seq<char>>>, outcomes: Seq<LineOutcome>)
    requires
        fit(lines, outcomes),
    ensures
        probe_of(outcomes) is Inaccessible <==> exists|k: int| #[trigger]
            settles_for_trouble(lines, k),
{
    let first = first_decisive(outcomes, 0);
    lemma_first_decisive(outcomes, 0);
    if probe_of(outcomes) is Inaccessible {
        assert(fits(lines[first], outcomes[first]));
        assert forall|j: int| 0 <= j < first implies !spells_a_record(#[trigger] lines[j]) by {
            assert(!is_decisive(outcomes[j]));
        }
        assert(settles_for_trouble(lines, first));
    }
    if exists|k: int| #[trigger] settles_for_trouble(lines, k) {
        let k = choose|k: int| #[trigger] settles_for_trouble(lines, k);
        assert(is_decisive(outcomes[k]));
        assert(first <= k);
        assert(is_decisive(outcomes[first]));
        if first < k {
            assert(!spells_a_record(lines[first]));
        }
    }
}

/// When a log is empty.
proof fn lemma_log_empty(lines: Seq<Option<Seq<char>>>, outcomes: Seq<LineOutcome>)
    requires
        fit(lines, outcomes),
    ensures
        probe_of(outcomes) is Empty <==> forall|k: int|
            is_early(lines, k) ==> #[trigger] lines[k] is Some && is_blank(lines[k]->0),
{
    let first = first_decisive(outcomes, 0);
    lemma_first_decisive(outcomes, 0);
    if probe_of(outcomes) is Empty {
        assert forall|k: int| is_early(lines, k) implies #[trigger] lines[k] is Some && is_blank(
            lines[k]->0,
        ) by {
            assert(fits(lines[k], outcomes[k]));
            assert(!is_decisive(outcomes[k]));
            assert(outcomes[k] != LineOutcome::Foreign);
        }
    }
    if forall|k: int|
        is_early(lines, k) ==> #[trigger] lines[k] is Some && is_blank(lines[k]->0) {
        assert forall|k: int| 0 <= k < outcomes.len() implies #[trigger] outcomes[k] is Blank by {
            assert(lines[k] is Some && is_blank(lines[k]->0));
        }
        if first < outcomes.len() {
            assert(outcomes[first] is Blank);
        }
        if outcomes.contains(LineOutcome::Foreign) {
            let k = choose|k: int| 0 <= k < outcomes.len() && outcomes[k] == LineOutcome::Foreign;
            assert(outcomes[k] is Blank);
        }
    }
}

/// What a log comes to, in terms of its first lines: data where one spells a record and
/// all before it could be read; inaccessible where one could not be read and none
/// before it spells a record; empty where all are blank; and unsupported else. A log
/// that could not be opened is inaccessible.
pub proof fn law_log_verdicts(lines: Seq<Option<Seq<char>>>)
    ensures
        probe_log(None) is Inaccessible,
        probe_log(Some(lines)) is Data <==> exists|k: int| #[trigger] settles_for_data(lines, k),
        probe_log(Some(lines)) is Inaccessible <==> exists|k: int| #[trigger]
            settles_for_trouble(lines, k),
        probe_log(Some(lines)) is Empty <==> forall|k: int|
            is_early(lines, k) ==> #[trigger] lines[k] is Some && is_blank(lines[k]->0),
{
    let outcomes = line_outcomes(probed_lines(lines));
    lemma_lines_fit(lines);
    lemma_log_data(lines, outcomes);
    lemma_log_trouble(lines, outcomes);
    lemma_log_empty(lines, outcomes);
}

/// The shape of an object has its members, in order, by their names and shapes, and
/// nothing else has any.
pub proof fn law_shapes(members: Vec<(String, JsonShape)>, i: int)
    ensures
        JsonShape::Other.node() is Other,
        JsonShape::Object(members).node() is Object,
        JsonShape::Object(members).node()->Object_0.len() == members@.len(),
        0 <= i < members@.len() ==> JsonShape::Object(members).node()->Object_0[i] == (
            members@[i].0@,
            members@[i].1.node(),
        ),
{
}

} // verus!
