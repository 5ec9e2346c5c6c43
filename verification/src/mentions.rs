//! Mentions: which nodes the content of a node refers to.

use crate::ids::{is_valid_node_id, lower_uuid, valid_node_id};
use crate::node::{optional_text, texts};
use crate::sequences::lemma_push_contains;
use crate::text::{contains_part, is_ascii_lower, is_digit, same_text};
use vstd::prelude::*;
use vstd::utf8::encode_utf8;

verus! {

/// A link in markdown: `[text](nodespace://id)` or `[text](nodespace://node/id?params)`. The group
/// is the identifier.
pub const MARKDOWN_MENTION_PATTERN: &'static str =
    r"\[[^\]]+\]\(nodespace://(?:node/)?([^\s)?]+)(?:\?[^)]*)?\)";

/// A plain address: `nodespace://id` or `nodespace://node/id`. The group is the identifier.
pub const PLAIN_MENTION_PATTERN: &'static str = r"nodespace://(?:node/)?([^\s)?]+)";

/// A place in a text that a pattern matches, in bytes, with the text of the pattern's group.
#[derive(Debug)]
pub struct PatternMatch {
    pub start: usize,
    pub end: usize,
    pub group: Option<String>,
}

#[verifier::ext_equal]
pub struct PatternMatchView {
    pub start: nat,
    pub end: nat,
    pub group: Option<Seq<char>>,
}

impl View for PatternMatch {
    type V = PatternMatchView;

    open spec fn view(&self) -> PatternMatchView {
        PatternMatchView {
            start: self.start as nat,
            end: self.end as nat,
            group: optional_text(self.group),
        }
    }
}

pub open spec fn match_views(matches: Seq<PatternMatch>) -> Seq<PatternMatchView> {
    matches.map_values(|m: PatternMatch| m@)
}

/// What `regex::Regex::captures_iter` yields for a pattern and a text: start and end of each match
/// in bytes, and the text of the first group.
pub uninterp spec fn regex_captures(pattern: Seq<char>, text: Seq<char>) -> Seq<
    (nat, nat, Option<Seq<char>>),
>;

pub open spec fn as_matches(captures: Seq<(nat, nat, Option<Seq<char>>)>) -> Seq<PatternMatchView> {
    captures.map_values(
        |m: (nat, nat, Option<Seq<char>>)| PatternMatchView { start: m.0, end: m.1, group: m.2 },
    )
}

/// A text of small letters, digits and hyphens, as identifiers are.
pub open spec fn plain_id(id: Seq<char>) -> bool {
    id.len() > 0 && forall|i: int|
        0 <= i < id.len() ==> is_ascii_lower(#[trigger] id[i]) || is_digit(id[i]) || id[i] == '-'
}

/// The text is a plain address of the node and nothing else.
pub open spec fn is_address(text: Seq<char>, id: Seq<char>) -> bool {
    plain_id(id) && (text == "nodespace://"@ + id || text == "nodespace://node/"@ + id)
}

/// A markdown link to a node, with `node/` in its address or not, and with parameters or not.
pub open spec fn link(
    label: Seq<char>,
    node: bool,
    id: Seq<char>,
    query: Option<Seq<char>>,
) -> Seq<char> {
    let address = if node {
        "](nodespace://node/"@ + id
    } else {
        "](nodespace://"@ + id
    };
    "["@ + label + address + (match query {
        Some(q) => "?"@ + q,
        None => Seq::empty(),
    }) + ")"@
}

/// The label does not close its bracket, and the parameters do not close theirs.
pub open spec fn may_link(label: Seq<char>, query: Option<Seq<char>>) -> bool {
    label.len() > 0 && !label.contains(']') && (query matches Some(q) ==> !q.contains(')'))
}

/// The text is a markdown link to the node and nothing else.
pub open spec fn is_link(text: Seq<char>, id: Seq<char>) -> bool {
    plain_id(id) && exists|label: Seq<char>, node: bool, query: Option<Seq<char>>|
        may_link(label, query) && text == #[trigger] link(label, node, id, query)
}

/// The match is the whole text, and its group is the identifier.
pub open spec fn is_whole(m: PatternMatchView, text: Seq<char>, id: Seq<char>) -> bool {
    m == (PatternMatchView { start: 0, end: encode_utf8(text).len(), group: Some(id) })
}

/// The identifier stands in the text behind the head of an address.
pub open spec fn is_addressed(text: Seq<char>, id: Seq<char>) -> bool {
    contains_part(text, "nodespace://"@ + id) || contains_part(text, "nodespace://node/"@ + id)
}

/// A markdown link to a node with something before it and behind it.
pub open spec fn around_link(
    before: Seq<char>,
    label: Seq<char>,
    node: bool,
    id: Seq<char>,
    query: Option<Seq<char>>,
    after: Seq<char>,
) -> Seq<char> {
    before + link(label, node, id, query) + after
}

/// The first bracket of the text opens a markdown link to the node.
pub open spec fn has_first_link(text: Seq<char>, id: Seq<char>) -> bool {
    plain_id(id) && exists|
        before: Seq<char>,
        label: Seq<char>,
        node: bool,
        query: Option<Seq<char>>,
        after: Seq<char>,
    |
        !before.contains('[') && may_link(label, query) && text == #[trigger] around_link(
            before,
            label,
            node,
            id,
            query,
            after,
        )
}

/// A plain address of a node with something before it and behind it.
pub open spec fn around_address(
    before: Seq<char>,
    node: bool,
    id: Seq<char>,
    after: Seq<char>,
) -> Seq<char> {
    let head = if node {
        "nodespace://node/"@
    } else {
        "nodespace://"@
    };
    before + head + id + after
}

/// The address begins the text or follows a space or a new line, and what follows it does not belong
/// to it.
pub open spec fn stands_free(before: Seq<char>, after: Seq<char>) -> bool {
    &&& before.len() == 0 || before.last() == ' ' || before.last() == '\n'
    &&& after.len() == 0 || after[0] == ' ' || after[0] == '\n' || after[0] == ')' || after[0] == '?'
}

/// Somewhere in the text stands a plain address of the node by itself.
pub open spec fn has_free_address(text: Seq<char>, id: Seq<char>) -> bool {
    plain_id(id) && exists|before: Seq<char>, node: bool, after: Seq<char>|
        stands_free(before, after) && text == #[trigger] around_address(before, node, id, after)
}

/// Calls `regex::Regex::captures_iter`. Claimed: the matches, their places and their groups depend
/// on the pattern and the text alone; no match is empty or reaches beyond the text; each has a group,
/// which stands in the text behind the head of an address; a text without an opening bracket has no
/// markdown link; a text that is a plain address has itself as the only address, and one that is a
/// markdown link has itself as the only link, each with the identifier as its group; a markdown link
/// that the first bracket opens is the first match, and an address that stands by itself is a match.
#[verifier::external_body]
fn find_captures(pattern: &str, text: &str) -> (r: Vec<PatternMatch>)
    requires
        pattern@ == MARKDOWN_MENTION_PATTERN@ || pattern@ == PLAIN_MENTION_PATTERN@,
    ensures
        match_views(r@) == as_matches(regex_captures(pattern@, text@)),
        forall|i: int|
            0 <= i < r@.len() ==> (#[trigger] r@[i]).start < r@[i].end <= encode_utf8(text@).len(),
        forall|i: int|
            0 <= i < r@.len() ==> ((#[trigger] r@[i])@.group matches Some(id) && is_addressed(
                text@,
                id,
            )),
        pattern@ == MARKDOWN_MENTION_PATTERN@ && !text@.contains('[') ==> r@.len() == 0,
        pattern@ == PLAIN_MENTION_PATTERN@ ==> forall|id: Seq<char>| #[trigger]
            is_address(text@, id) ==> r@.len() == 1 && is_whole(r@[0]@, text@, id),
        pattern@ == MARKDOWN_MENTION_PATTERN@ ==> forall|id: Seq<char>| #[trigger]
            is_link(text@, id) ==> r@.len() == 1 && is_whole(r@[0]@, text@, id),
        pattern@ == MARKDOWN_MENTION_PATTERN@ ==> forall|id: Seq<char>| #[trigger]
            has_first_link(text@, id) ==> r@.len() > 0 && names(r@[0]@, id),
        pattern@ == PLAIN_MENTION_PATTERN@ ==> forall|id: Seq<char>| #[trigger]
            has_free_address(text@, id) ==> exists|i: int|
                0 <= i < r@.len() && names((#[trigger] r@[i])@, id),
{
    let found = regex::Regex::new(pattern).unwrap();
    found.captures_iter(text).map(|c| {
        let whole = c.get_match();
        let group = c.get(1).map(|m| m.as_str().to_string());
        PatternMatch { start: whole.start(), end: whole.end(), group }
    }).collect()
}

/// The place lies in one of the matches.
pub open spec fn inside_any(matches: Seq<PatternMatchView>, at: nat) -> bool {
    exists|i: int| 0 <= i < matches.len() && (#[trigger] matches[i]).start <= at < matches[i].end
}

/// The match names the node.
pub open spec fn names(m: PatternMatchView, id: Seq<char>) -> bool {
    m.group == Some(id)
}

/// The node is mentioned: by a markdown link, or by a plain address outside all markdown links. Only
/// UUIDs and dates count.
pub open spec fn mentioned(
    markdown: Seq<PatternMatchView>,
    plain: Seq<PatternMatchView>,
    id: Seq<char>,
) -> bool {
    valid_node_id(id) && (mentioned_by_link(markdown, id) || mentioned_plainly(markdown, plain, id))
}

pub open spec fn mentioned_by_link(markdown: Seq<PatternMatchView>, id: Seq<char>) -> bool {
    exists|i: int| 0 <= i < markdown.len() && names(#[trigger] markdown[i], id)
}

pub open spec fn mentioned_plainly(
    markdown: Seq<PatternMatchView>,
    plain: Seq<PatternMatchView>,
    id: Seq<char>,
) -> bool {
    exists|i: int|
        0 <= i < plain.len() && names(#[trigger] plain[i], id) && !inside_any(markdown, plain[i].start)
}

/// Whether a text is in a list.
pub fn list_contains(list: &Vec<String>, text: &str) -> (r: bool)
    ensures
        r == texts(list@).contains(text@),
{
    let mut i: usize = 0;
    while i < list.len()
        invariant
            i <= list@.len(),
            forall|j: int| 0 <= j < i ==> (#[trigger] list@[j])@ != text@,
        decreases list@.len() - i,
    {
        if same_text(list[i].as_str(), text) {
            proof {
                assert(texts(list@)[i as int] == text@);
            }
            return true;
        }
        i += 1;
    }
    proof {
        if texts(list@).contains(text@) {
            let j = choose|j: int| 0 <= j < texts(list@).len() && texts(list@)[j] == text@;
            assert(list@[j]@ == text@);
        }
    }
    false
}

/// Puts a text at the end of a list unless it is there already.
pub fn push_new(list: &mut Vec<String>, text: &str)
    requires
        texts(old(list)@).no_duplicates(),
    ensures
        texts(final(list)@).no_duplicates(),
        texts(final(list)@) == (if texts(old(list)@).contains(text@) {
            texts(old(list)@)
        } else {
            texts(old(list)@).push(text@)
        }),
        forall|x: Seq<char>| #[trigger]
            texts(final(list)@).contains(x) <==> texts(old(list)@).contains(x) || x == text@,
{
    let ghost before = texts(list@);
    if !list_contains(&*list, text) {
        list.push(text.to_owned());
        proof {
            lemma_push_contains(before, text@);
            assert(texts(list@) =~= before.push(text@));
            assert forall|i: int, j: int| 0 <= i < j < texts(list@).len() implies texts(list@)[i]
                != texts(list@)[j] by {
                assert(before.contains(before[i]));
            }
        }
    }
}

fn is_inside_any(matches: &Vec<PatternMatch>, at: usize) -> (r: bool)
    ensures
        r == inside_any(match_views(matches@), at as nat),
{
    let ghost views = match_views(matches@);
    let mut i: usize = 0;
    while i < matches.len()
        invariant
            i <= matches@.len() == views.len(),
            forall|j: int| 0 <= j < i ==> !((#[trigger] views[j]).start <= at < views[j].end),
        decreases matches@.len() - i,
    {
        proof {
            assert(views[i as int] == matches@[i as int]@);
        }
        if matches[i].start <= at && at < matches[i].end {
            return true;
        }
        i += 1;
    }
    false
}

/// The identifiers in the markdown links.
pub open spec fn link_ids(markdown: Seq<PatternMatchView>) -> Seq<Seq<char>>
    decreases markdown.len(),
{
    if markdown.len() == 0 {
        Seq::empty()
    } else {
        match markdown.last().group {
            Some(id) if valid_node_id(id) => link_ids(markdown.drop_last()).push(id),
            _ => link_ids(markdown.drop_last()),
        }
    }
}

/// The identifiers in the plain addresses outside all markdown links.
pub open spec fn address_ids(
    markdown: Seq<PatternMatchView>,
    plain: Seq<PatternMatchView>,
) -> Seq<Seq<char>>
    decreases plain.len(),
{
    if plain.len() == 0 {
        Seq::empty()
    } else {
        match plain.last().group {
            Some(id) if valid_node_id(id) && !inside_any(markdown, plain.last().start) => address_ids(
                markdown,
                plain.drop_last(),
            ).push(id),
            _ => address_ids(markdown, plain.drop_last()),
        }
    }
}

/// The texts without repetitions.
pub open spec fn distinct(items: Seq<Seq<char>>) -> Seq<Seq<char>>
    decreases items.len(),
{
    if items.len() == 0 {
        Seq::empty()
    } else {
        let front = distinct(items.drop_last());
        if front.contains(items.last()) {
            front
        } else {
            front.push(items.last())
        }
    }
}

/// The nodes that the matches mention, each once: those of the links first.
pub open spec fn mention_list(
    markdown: Seq<PatternMatchView>,
    plain: Seq<PatternMatchView>,
) -> Seq<Seq<char>> {
    distinct(link_ids(markdown) + address_ids(markdown, plain))
}

/// The nodes that a content mentions.
pub open spec fn mentions_in(content: Seq<char>) -> Seq<Seq<char>> {
    mention_list(
        as_matches(regex_captures(MARKDOWN_MENTION_PATTERN@, content)),
        as_matches(regex_captures(PLAIN_MENTION_PATTERN@, content)),
    )
}

/// Collects the nodes that the matches of the two patterns mention, each once.
pub fn collect_mentions(markdown: &Vec<PatternMatch>, plain: &Vec<PatternMatch>) -> (r: Vec<String>)
    ensures
        texts(r@) == mention_list(match_views(markdown@), match_views(plain@)),
        texts(r@).no_duplicates(),
        forall|id: Seq<char>| #[trigger]
            texts(r@).contains(id) <==> mentioned(match_views(markdown@), match_views(plain@), id),
{
    let ghost links = match_views(markdown@);
    let ghost addresses = match_views(plain@);
    let mut out: Vec<String> = Vec::new();
    proof {
        assert(texts(out@) =~= Seq::empty());
        assert(links.take(0) =~= Seq::empty());
        assert(addresses.take(0) =~= Seq::empty());
    }
    let mut i: usize = 0;
    while i < markdown.len()
        invariant
            i <= markdown@.len() == links.len(),
            texts(out@).no_duplicates(),
            texts(out@) == distinct(link_ids(links.take(i as int))),
        decreases markdown@.len() - i,
    {
        proof {
            assert(links[i as int] == markdown@[i as int]@);
            assert(links.take(i + 1).drop_last() =~= links.take(i as int));
        }
        if let Some(id) = &markdown[i].group {
            if is_valid_node_id(id.as_str()) {
                proof {
                    let before = link_ids(links.take(i as int));
                    assert(before.push(id@).drop_last() =~= before);
                }
                push_new(&mut out, id.as_str());
            }
        }
        i += 1;
    }
    proof {
        assert(links.take(links.len() as int) =~= links);
        assert(link_ids(links) + address_ids(links, addresses.take(0)) =~= link_ids(links));
    }
    let mut k: usize = 0;
    while k < plain.len()
        invariant
            k <= plain@.len() == addresses.len(),
            texts(out@).no_duplicates(),
            texts(out@) == mention_list(links, addresses.take(k as int)),
        decreases plain@.len() - k,
    {
        proof {
            assert(addresses[k as int] == plain@[k as int]@);
            assert(addresses.take(k + 1).drop_last() =~= addresses.take(k as int));
        }
        if let Some(id) = &plain[k].group {
            if !is_inside_any(markdown, plain[k].start) && is_valid_node_id(id.as_str()) {
                proof {
                    let before = address_ids(links, addresses.take(k as int));
                    let all = link_ids(links) + before.push(id@);
                    assert(all.drop_last() =~= link_ids(links) + before);
                    assert(all.last() == id@);
                }
                push_new(&mut out, id.as_str());
            }
        }
        k += 1;
    }
    proof {
        assert(addresses.take(addresses.len() as int) =~= addresses);
        law_mention_list(links, addresses);
    }
    out
}

/// The list holds exactly the nodes that are mentioned, each once.
pub proof fn law_mention_list(markdown: Seq<PatternMatchView>, plain: Seq<PatternMatchView>)
    ensures
        mention_list(markdown, plain).no_duplicates(),
        forall|id: Seq<char>| #[trigger]
            mention_list(markdown, plain).contains(id) <==> mentioned(markdown, plain, id),
{
    let links = link_ids(markdown);
    let addresses = address_ids(markdown, plain);
    lemma_distinct(links + addresses);
    lemma_link_ids(markdown);
    lemma_address_ids(markdown, plain);
    assert forall|id: Seq<char>| #[trigger]
        mention_list(markdown, plain).contains(id) <==> mentioned(markdown, plain, id) by {
        let all = links + addresses;
        assert(all.contains(id) <==> links.contains(id) || addresses.contains(id)) by {
            if links.contains(id) {
                let i = choose|i: int| 0 <= i < links.len() && links[i] == id;
                assert(all[i] == id);
            }
            if addresses.contains(id) {
                let i = choose|i: int| 0 <= i < addresses.len() && addresses[i] == id;
                assert(all[links.len() + i] == id);
            }
        }
    }
}

/// Each text stands once.
pub proof fn lemma_distinct(items: Seq<Seq<char>>)
    ensures
        distinct(items).no_duplicates(),
        forall|x: Seq<char>| #[trigger] distinct(items).contains(x) <==> items.contains(x),
    decreases items.len(),
{
    if items.len() > 0 {
        let front = items.drop_last();
        lemma_distinct(front);
        lemma_push_contains(front, items.last());
        assert(front.push(items.last()) =~= items);
        lemma_push_contains(distinct(front), items.last());
    }
}

proof fn lemma_link_ids(markdown: Seq<PatternMatchView>)
    ensures
        forall|id: Seq<char>| #[trigger]
            link_ids(markdown).contains(id) <==> valid_node_id(id) && mentioned_by_link(markdown, id),
    decreases markdown.len(),
{
    if markdown.len() > 0 {
        let front = markdown.drop_last();
        lemma_link_ids(front);
        if let Some(id) = markdown.last().group {
            lemma_push_contains(link_ids(front), id);
        }
        assert forall|id: Seq<char>| #[trigger] mentioned_by_link(markdown, id) <==> mentioned_by_link(
            front,
            id,
        ) || names(markdown.last(), id) by {
            if mentioned_by_link(markdown, id) {
                let j = choose|j: int| 0 <= j < markdown.len() && names(#[trigger] markdown[j], id);
                if j < front.len() {
                    assert(names(front[j], id));
                }
            }
            if mentioned_by_link(front, id) {
                let j = choose|j: int| 0 <= j < front.len() && names(#[trigger] front[j], id);
                assert(names(markdown[j], id));
            }
            if names(markdown.last(), id) {
                assert(names(markdown[markdown.len() - 1], id));
            }
        }
        assert forall|id: Seq<char>| #[trigger]
            link_ids(markdown).contains(id) <==> valid_node_id(id) && mentioned_by_link(markdown, id) by {
            assert(link_ids(front).contains(id) <==> valid_node_id(id) && mentioned_by_link(front, id));
            assert(mentioned_by_link(markdown, id) <==> mentioned_by_link(front, id) || names(
                markdown.last(),
                id,
            ));
        }
    }
}

proof fn lemma_address_ids(markdown: Seq<PatternMatchView>, plain: Seq<PatternMatchView>)
    ensures
        forall|id: Seq<char>| #[trigger]
            address_ids(markdown, plain).contains(id) <==> valid_node_id(id) && mentioned_plainly(
                markdown,
                plain,
                id,
            ),
    decreases plain.len(),
{
    if plain.len() > 0 {
        let front = plain.drop_last();
        lemma_address_ids(markdown, front);
        if let Some(id) = plain.last().group {
            lemma_push_contains(address_ids(markdown, front), id);
        }
        assert forall|id: Seq<char>| #[trigger]
            mentioned_plainly(markdown, plain, id) <==> mentioned_plainly(markdown, front, id) || (names(
                plain.last(),
                id,
            ) && !inside_any(markdown, plain.last().start)) by {
            if mentioned_plainly(markdown, plain, id) {
                let j = choose|j: int|
                    0 <= j < plain.len() && names(#[trigger] plain[j], id) && !inside_any(
                        markdown,
                        plain[j].start,
                    );
                if j < front.len() {
                    assert(names(front[j], id));
                }
            }
            if mentioned_plainly(markdown, front, id) {
                let j = choose|j: int|
                    0 <= j < front.len() && names(#[trigger] front[j], id) && !inside_any(
                        markdown,
                        front[j].start,
                    );
                assert(names(plain[j], id));
            }
            if names(plain.last(), id) && !inside_any(markdown, plain.last().start) {
                assert(names(plain[plain.len() - 1], id));
            }
        }
        assert forall|id: Seq<char>| #[trigger]
            address_ids(markdown, plain).contains(id) <==> valid_node_id(id) && mentioned_plainly(
                markdown,
                plain,
                id,
            ) by {
            assert(address_ids(markdown, front).contains(id) <==> valid_node_id(id)
                && mentioned_plainly(markdown, front, id));
            assert(mentioned_plainly(markdown, plain, id) <==> mentioned_plainly(markdown, front, id)
                || (names(plain.last(), id) && !inside_any(markdown, plain.last().start)));
        }
    }
}

proof fn lemma_no_addresses(markdown: Seq<PatternMatchView>, plain: Seq<PatternMatchView>)
    requires
        forall|i: int| 0 <= i < plain.len() ==> inside_any(markdown, (#[trigger] plain[i]).start),
    ensures
        address_ids(markdown, plain) == Seq::<Seq<char>>::empty(),
    decreases plain.len(),
{
    if plain.len() > 0 {
        assert forall|i: int| 0 <= i < plain.drop_last().len() implies inside_any(
            markdown,
            (#[trigger] plain.drop_last()[i]).start,
        ) by {
            assert(plain.drop_last()[i] == plain[i]);
        }
        lemma_no_addresses(markdown, plain.drop_last());
        assert(inside_any(markdown, plain[plain.len() - 1].start));
    }
}

/// A match that is a whole link names the only node that is mentioned.
proof fn lemma_link_found(
    text: Seq<char>,
    id: Seq<char>,
    markdown: Seq<PatternMatchView>,
    plain: Seq<PatternMatchView>,
)
    requires
        valid_node_id(id),
        markdown.len() == 1,
        is_whole(markdown[0], text, id),
        forall|i: int|
            0 <= i < plain.len() ==> (#[trigger] plain[i]).start < encode_utf8(text).len(),
    ensures
        mention_list(markdown, plain) == seq![id],
{
    assert forall|i: int| 0 <= i < plain.len() implies inside_any(
        markdown,
        (#[trigger] plain[i]).start,
    ) by {
        assert(markdown[0].start <= plain[i].start < markdown[0].end);
    }
    lemma_no_addresses(markdown, plain);
    reveal_with_fuel(link_ids, 2);
    assert(markdown.drop_last().len() == 0);
    assert(link_ids(markdown) =~= seq![id]);
    assert(link_ids(markdown) + address_ids(markdown, plain) =~= seq![id]);
    lemma_distinct_one(id);
}

/// A match that is a whole address names the only node that is mentioned.
proof fn lemma_address_found(text: Seq<char>, id: Seq<char>, plain: Seq<PatternMatchView>)
    requires
        valid_node_id(id),
        plain.len() == 1,
        is_whole(plain[0], text, id),
    ensures
        mention_list(Seq::empty(), plain) == seq![id],
{
    let markdown = Seq::<PatternMatchView>::empty();
    reveal_with_fuel(address_ids, 2);
    assert(plain.drop_last().len() == 0);
    assert(!inside_any(markdown, 0));
    assert(address_ids(markdown, plain) =~= seq![id]);
    assert(link_ids(markdown) + address_ids(markdown, plain) =~= seq![id]);
    lemma_distinct_one(id);
}

proof fn lemma_distinct_one(id: Seq<char>)
    ensures
        distinct(seq![id]) == seq![id],
{
    reveal_with_fuel(distinct, 2);
    assert(seq![id].drop_last() =~= Seq::empty());
    assert(!distinct(seq![id].drop_last()).contains(id));
    assert(distinct(seq![id]) =~= seq![id]);
}

proof fn lemma_address_has_no_bracket(text: Seq<char>, id: Seq<char>)
    requires
        is_address(text, id),
    ensures
        !text.contains('['),
{
    reveal_strlit("nodespace://");
    reveal_strlit("nodespace://node/");
    if text.contains('[') {
        let i = choose|i: int| 0 <= i < text.len() && text[i] == '[';
        let head = if text == "nodespace://"@ + id {
            "nodespace://"@
        } else {
            "nodespace://node/"@
        };
        if i >= head.len() {
            assert(text[i] == id[i - head.len()]);
        } else {
            assert(text[i] == head[i]);
        }
    }
}

proof fn lemma_valid_ids_are_plain(id: Seq<char>)
    requires
        valid_node_id(id),
    ensures
        plain_id(id),
{
    assert forall|i: int| 0 <= i < id.len() implies is_ascii_lower(#[trigger] id[i]) || is_digit(id[i])
        || id[i] == '-' by {
        if lower_uuid(id) {
            assert(id[i] == '-' || crate::ids::is_lower_hex(id[i]));
        }
    }
}

/// A valid identifier makes addresses and links: each of the four forms is recognised as naming it.
/// What a content that is such an address or link mentions is then the identifier alone, as
/// [`extract_mentions`] promises.
pub proof fn law_valid_ids_make_links(id: Seq<char>, label: Seq<char>, query: Seq<char>)
    requires
        valid_node_id(id),
        may_link(label, Some(query)),
    ensures
        is_address("nodespace://"@ + id, id),
        is_address("nodespace://node/"@ + id, id),
        is_link(link(label, false, id, None), id),
        is_link(link(label, true, id, None), id),
        is_link(link(label, false, id, Some(query)), id),
        is_link(link(label, true, id, Some(query)), id),
{
    lemma_valid_ids_are_plain(id);
    assert(may_link(label, None));
}

/// Extracts the nodes that a content mentions, each once: those whose addresses stand in it. A content
/// that is a link to a node mentions that node alone. The first link of a content is found, and in a
/// content without links every address that stands by itself.
pub fn extract_mentions(content: &str) -> (r: Vec<String>)
    ensures
        texts(r@) == mentions_in(content@),
        texts(r@).no_duplicates(),
        forall|id: Seq<char>| #[trigger]
            texts(r@).contains(id) <==> mentioned(
                as_matches(regex_captures(MARKDOWN_MENTION_PATTERN@, content@)),
                as_matches(regex_captures(PLAIN_MENTION_PATTERN@, content@)),
                id,
            ),
        forall|id: Seq<char>| #[trigger]
            is_address(content@, id) && valid_node_id(id) ==> texts(r@) == seq![id],
        forall|id: Seq<char>| #[trigger]
            is_link(content@, id) && valid_node_id(id) ==> texts(r@) == seq![id],
        forall|id: Seq<char>| #[trigger] texts(r@).contains(id) ==> is_addressed(content@, id),
        forall|id: Seq<char>| #[trigger]
            has_first_link(content@, id) && valid_node_id(id) ==> texts(r@).contains(id),
        forall|id: Seq<char>| #[trigger]
            has_free_address(content@, id) && valid_node_id(id) && !content@.contains('[') ==> texts(
                r@,
            ).contains(id),
{
    let markdown = find_captures(MARKDOWN_MENTION_PATTERN, content);
    let plain = find_captures(PLAIN_MENTION_PATTERN, content);
    proof {
        let links = match_views(markdown@);
        let addresses = match_views(plain@);
        assert forall|i: int| 0 <= i < addresses.len() implies (#[trigger] addresses[i]).start
            < encode_utf8(content@).len() by {
            assert(addresses[i] == plain@[i]@);
        }
        assert forall|id: Seq<char>| #[trigger]
            is_address(content@, id) && valid_node_id(id) implies mentions_in(content@) == seq![id] by {
            lemma_address_has_no_bracket(content@, id);
            assert(links =~= Seq::empty());
            lemma_address_found(content@, id, addresses);
        }
        assert forall|id: Seq<char>| #[trigger]
            is_link(content@, id) && valid_node_id(id) implies mentions_in(content@) == seq![id] by {
            lemma_link_found(content@, id, links, addresses);
        }
        assert forall|id: Seq<char>| #[trigger] mentioned(links, addresses, id) implies is_addressed(
            content@,
            id,
        ) by {
            if mentioned_by_link(links, id) {
                let i = choose|i: int| 0 <= i < links.len() && names(#[trigger] links[i], id);
                assert(links[i] == markdown@[i]@);
            } else {
                let i = choose|i: int|
                    0 <= i < addresses.len() && names(#[trigger] addresses[i], id) && !inside_any(
                        links,
                        addresses[i].start,
                    );
                assert(addresses[i] == plain@[i]@);
            }
        }
        assert forall|id: Seq<char>| #[trigger]
            has_first_link(content@, id) && valid_node_id(id) implies mentioned(
            links,
            addresses,
            id,
        ) by {
            assert(links[0] == markdown@[0]@);
        }
        assert forall|id: Seq<char>| #[trigger]
            has_free_address(content@, id) && valid_node_id(id) && !content@.contains('[') implies mentioned(
            links,
            addresses,
            id,
        ) by {
            let i = choose|i: int| 0 <= i < plain@.len() && names((#[trigger] plain@[i])@, id);
            assert(addresses[i] == plain@[i]@);
            assert(!inside_any(links, addresses[i].start));
        }
    }
    collect_mentions(&markdown, &plain)
}

/// Whatever the patterns match, only UUIDs and dates are mentioned.
pub proof fn law_mentions_are_valid_ids(
    markdown: Seq<PatternMatchView>,
    plain: Seq<PatternMatchView>,
    id: Seq<char>,
)
    requires
        mentioned(markdown, plain, id),
    ensures
        valid_node_id(id),
{
}

} // verus!
