//! The text content of the overlay: one formatted line per slash-command,
//! sorted lexicographically, framed by a title, section headers and a fixed
//! block of keyboard shortcuts.

use vstd::prelude::*;
use vstd::relations::{sorted_by, total_ordering};
use vstd::seq_lib::lemma_sorted_unique;
use vstd::string::*;

verus! {

/// One slash-command as the overlay receives it: a display name and a
/// one-line description.
pub struct CommandEntry {
    pub name: String,
    pub description: String,
}

impl CommandEntry {
    /// The pair of texts this entry carries.
    pub open spec fn view_pair(&self) -> (Seq<char>, Seq<char>) {
        (self.name@, self.description@)
    }

    pub fn new(name: String, description: String) -> (r: CommandEntry)
        ensures
            r.name@ == name@,
            r.description@ == description@,
    {
        CommandEntry { name, description }
    }
}

/// `s` with one leading slash removed, if the source supplied one.
pub open spec fn trim_slash(s: Seq<char>) -> Seq<char> {
    if s.len() > 0 && s[0] == '/' {
        s.subrange(1, s.len() as int)
    } else {
        s
    }
}

/// The key a command's line is ordered by: the formatted `/<name>` string,
/// where `<name>` excludes any leading slash supplied by the source.
pub open spec fn key_of(name: Seq<char>) -> Seq<char> {
    "/"@ + trim_slash(name)
}

/// The formatted line for one command: `/<name> – <description>`.
pub open spec fn command_line_of(name: Seq<char>, desc: Seq<char>) -> Seq<char> {
    key_of(name) + " – "@ + desc
}

/// Lexicographic order on texts, by code point; a prefix sorts before any
/// extension of it.
pub open spec fn line_le(a: Seq<char>, b: Seq<char>) -> bool
    decreases a.len(),
{
    if a.len() == 0 {
        true
    } else if b.len() == 0 {
        false
    } else if (a[0] as int) < (b[0] as int) {
        true
    } else if (a[0] as int) > (b[0] as int) {
        false
    } else {
        line_le(a.drop_first(), b.drop_first())
    }
}

/// `line_le` as a binary relation value, for use with vstd's ordering
/// predicates.
pub open spec fn line_le_fn() -> spec_fn(Seq<char>, Seq<char>) -> bool {
    |a: Seq<char>, b: Seq<char>| line_le(a, b)
}

pub proof fn lemma_line_le_refl(a: Seq<char>)
    ensures
        line_le(a, a),
    decreases a.len(),
{
    if a.len() > 0 {
        lemma_line_le_refl(a.drop_first());
    }
}

pub proof fn lemma_line_le_antisym(a: Seq<char>, b: Seq<char>)
    requires
        line_le(a, b),
        line_le(b, a),
    ensures
        a == b,
    decreases a.len(),
{
    if a.len() == 0 {
        assert(b.len() == 0);
        assert(a =~= b);
    } else {
        assert(b.len() > 0);
        assert(a[0] == b[0]);
        lemma_line_le_antisym(a.drop_first(), b.drop_first());
        assert(a =~= b) by {
            assert(forall|i: int|
                1 <= i < a.len() ==> a[i] == a.drop_first()[i - 1] && b[i] == b.drop_first()[i - 1]);
        }
    }
}

pub proof fn lemma_line_le_trans(a: Seq<char>, b: Seq<char>, c: Seq<char>)
    requires
        line_le(a, b),
        line_le(b, c),
    ensures
        line_le(a, c),
    decreases a.len(),
{
    if a.len() == 0 {
    } else {
        assert(b.len() > 0);
        assert(c.len() > 0);
        if a[0] == b[0] && b[0] == c[0] {
            lemma_line_le_trans(a.drop_first(), b.drop_first(), c.drop_first());
        }
    }
}

pub proof fn lemma_line_le_connected(a: Seq<char>, b: Seq<char>)
    ensures
        line_le(a, b) || line_le(b, a),
    decreases a.len(),
{
    if a.len() > 0 && b.len() > 0 && a[0] == b[0] {
        lemma_line_le_connected(a.drop_first(), b.drop_first());
    }
}

/// Order on (key, description) pairs: by the key; a tie on the key is
/// broken by the description, so that an arrangement is deterministic even
/// when two commands format to the same `/<name>` string.
pub open spec fn pair_le(a: (Seq<char>, Seq<char>), b: (Seq<char>, Seq<char>)) -> bool {
    if a.0 == b.0 {
        line_le(a.1, b.1)
    } else {
        line_le(a.0, b.0)
    }
}

/// `pair_le` as a binary relation value, for use with vstd's ordering
/// predicates.
pub open spec fn pair_le_fn() -> spec_fn((Seq<char>, Seq<char>), (Seq<char>, Seq<char>)) -> bool {
    |a: (Seq<char>, Seq<char>), b: (Seq<char>, Seq<char>)| pair_le(a, b)
}

pub proof fn lemma_pair_le_refl(a: (Seq<char>, Seq<char>))
    ensures
        pair_le(a, a),
{
    lemma_line_le_refl(a.1);
}

pub proof fn lemma_pair_le_antisym(a: (Seq<char>, Seq<char>), b: (Seq<char>, Seq<char>))
    requires
        pair_le(a, b),
        pair_le(b, a),
    ensures
        a == b,
{
    if a.0 == b.0 {
        lemma_line_le_antisym(a.1, b.1);
        assert(a == (a.0, a.1) && b == (b.0, b.1));
    } else {
        lemma_line_le_antisym(a.0, b.0);
    }
}

pub proof fn lemma_pair_le_trans(
    a: (Seq<char>, Seq<char>),
    b: (Seq<char>, Seq<char>),
    c: (Seq<char>, Seq<char>),
)
    requires
        pair_le(a, b),
        pair_le(b, c),
    ensures
        pair_le(a, c),
{
    if a.0 == b.0 && b.0 == c.0 {
        lemma_line_le_trans(a.1, b.1, c.1);
    } else if a.0 != b.0 && b.0 != c.0 {
        lemma_line_le_trans(a.0, b.0, c.0);
        if a.0 == c.0 {
            lemma_line_le_antisym(a.0, b.0);
        }
    }
}

pub proof fn lemma_pair_le_connected(a: (Seq<char>, Seq<char>), b: (Seq<char>, Seq<char>))
    ensures
        pair_le(a, b) || pair_le(b, a),
{
    if a.0 == b.0 {
        lemma_line_le_connected(a.1, b.1);
    } else {
        lemma_line_le_connected(a.0, b.0);
    }
}

/// The pair order is a total order, so a sorted arrangement of any multiset
/// of (key, description) pairs is unique.
pub proof fn lemma_pair_le_total_ordering()
    ensures
        total_ordering(pair_le_fn()),
{
    let leq = pair_le_fn();
    assert forall|a: (Seq<char>, Seq<char>)| #[trigger] leq(a, a) by {
        lemma_pair_le_refl(a);
    }
    assert forall|a: (Seq<char>, Seq<char>), b: (Seq<char>, Seq<char>)|
        #[trigger] leq(a, b) && #[trigger] leq(b, a) implies a == b by {
        lemma_pair_le_antisym(a, b);
    }
    assert forall|a: (Seq<char>, Seq<char>), b: (Seq<char>, Seq<char>), c: (Seq<char>, Seq<char>)|
        #[trigger] leq(a, b) && #[trigger] leq(b, c) implies leq(a, c) by {
        lemma_pair_le_trans(a, b, c);
    }
    assert forall|a: (Seq<char>, Seq<char>), b: (Seq<char>, Seq<char>)|
        #![trigger leq(a, b)]
        true implies leq(a, b) || leq(b, a) by {
        lemma_pair_le_connected(a, b);
    }
}

/// `name` with one leading slash removed, if it has one.
pub fn trimmed<'a>(name: &'a str) -> (r: &'a str)
    ensures
        r@ == trim_slash(name@),
{
    let len = name.unicode_len();
    if len > 0 {
        let c0 = name.get_char(0);
        if c0 == '/' {
            return name.substring_char(1, len);
        }
    }
    name
}

/// Formats the overlay line for one command.
pub fn format_command_line(name: &str, desc: &str) -> (r: String)
    ensures
        r@ == command_line_of(name@, desc@),
{
    let mut s = String::from_str("/");
    s.append(trimmed(name));
    s.append(" – ");
    s.append(desc);
    s
}

/// Decides `line_le` on two texts, comparing characters from the front.
pub fn line_le_exec(a: &str, b: &str) -> (r: bool)
    ensures
        r == line_le(a@, b@),
{
    let a_len = a.unicode_len();
    let b_len = b.unicode_len();
    let mut i: usize = 0;
    proof {
        assert(a@.skip(0) =~= a@);
        assert(b@.skip(0) =~= b@);
    }
    loop
        invariant
            i <= a_len,
            i <= b_len,
            a_len == a@.len(),
            b_len == b@.len(),
            forall|j: int| 0 <= j < i ==> a@[j] == b@[j],
            line_le(a@, b@) == line_le(a@.skip(i as int), b@.skip(i as int)),
        decreases a_len - i,
    {
        if i >= a_len {
            assert(a@.skip(i as int).len() == 0);
            return true;
        }
        if i >= b_len {
            assert(b@.skip(i as int).len() == 0);
            assert(a@.skip(i as int).len() > 0);
            return false;
        }
        let ca = a.get_char(i);
        let cb = b.get_char(i);
        proof {
            assert(a@.skip(i as int)[0] == a@[i as int]);
            assert(b@.skip(i as int)[0] == b@[i as int]);
        }
        if (ca as u32) < (cb as u32) {
            return true;
        }
        if (ca as u32) > (cb as u32) {
            return false;
        }
        proof {
            assert(a@.skip(i as int).drop_first() =~= a@.skip(i + 1));
            assert(b@.skip(i as int).drop_first() =~= b@.skip(i + 1));
        }
        i = i + 1;
    }
}

/// The (key, description) texts a sequence of owned string pairs holds.
pub open spec fn pairs_of(v: Seq<(String, String)>) -> Seq<(Seq<char>, Seq<char>)> {
    v.map_values(|p: (String, String)| (p.0@, p.1@))
}

proof fn lemma_pairs_of_insert(v: Seq<(String, String)>, i: int, p: (String, String))
    requires
        0 <= i <= v.len(),
    ensures
        pairs_of(v.insert(i, p)) == pairs_of(v).insert(i, (p.0@, p.1@)),
{
    assert(pairs_of(v.insert(i, p)) =~= pairs_of(v).insert(i, (p.0@, p.1@)));
}

/// Decides `pair_le` on two (key, description) pairs.
fn pair_le_exec(a: &(String, String), b: &(String, String)) -> (r: bool)
    ensures
        r == pair_le((a.0@, a.1@), (b.0@, b.1@)),
{
    if a.0 == b.0 {
        line_le_exec(a.1.as_str(), b.1.as_str())
    } else {
        line_le_exec(a.0.as_str(), b.0.as_str())
    }
}

/// The first position in `pairs` whose pair does not sort at or before `p`.
fn find_insert_pos(pairs: &Vec<(String, String)>, p: &(String, String)) -> (j: usize)
    ensures
        j <= pairs@.len(),
        forall|k: int| 0 <= k < j ==> #[trigger] pair_le_fn()(pairs_of(pairs@)[k], (p.0@, p.1@)),
        j < pairs@.len() ==> !pair_le(pairs_of(pairs@)[j as int], (p.0@, p.1@)),
{
    let mut j: usize = 0;
    while j < pairs.len()
        invariant
            j <= pairs@.len(),
            forall|k: int|
                0 <= k < j ==> #[trigger] pair_le_fn()(pairs_of(pairs@)[k], (p.0@, p.1@)),
        decreases pairs@.len() - j,
    {
        if !pair_le_exec(&pairs[j], p) {
            return j;
        }
        proof {
            assert(pair_le_fn()(pairs_of(pairs@)[j as int], (p.0@, p.1@)));
        }
        j = j + 1;
    }
    j
}

/// Places `p` into the sorted vector `pairs`, keeping it sorted; the
/// multiset of pairs gains exactly the texts of `p`.
pub fn insert_sorted(pairs: &mut Vec<(String, String)>, p: (String, String))
    requires
        sorted_by(pairs_of(old(pairs)@), pair_le_fn()),
    ensures
        sorted_by(pairs_of(final(pairs)@), pair_le_fn()),
        pairs_of(final(pairs)@).to_multiset() == pairs_of(old(pairs)@).to_multiset().insert(
            (p.0@, p.1@),
        ),
{
    broadcast use vstd::seq_lib::to_multiset_insert;

    let ghost leq = pair_le_fn();
    let ghost pv = (p.0@, p.1@);
    let j = find_insert_pos(pairs, &p);
    proof {
        let ts = pairs_of(pairs@);
        if (j as int) < ts.len() {
            assert(!pair_le(ts[j as int], pv));
            lemma_pair_le_connected(ts[j as int], pv);
            assert forall|k: int| j <= k < ts.len() implies #[trigger] leq(pv, ts[k]) by {
                assert(pair_le(pv, ts[j as int]));
                if k > j {
                    assert(leq(ts[j as int], ts[k]));
                    lemma_pair_le_trans(pv, ts[j as int], ts[k]);
                }
            }
        }
        lemma_pairs_of_insert(pairs@, j as int, p);
    }
    let ghost before = pairs@;
    pairs.insert(j, p);
    proof {
        let tb = pairs_of(before);
        let ta = pairs_of(pairs@);
        assert(ta == tb.insert(j as int, pv));
        assert forall|x: int, q: int| 0 <= x < q < ta.len() implies #[trigger] leq(
            ta[x],
            ta[q],
        ) by {
            lemma_pair_le_refl(pv);
            assert(forall|k: int| 0 <= k < tb.len() ==> ta[if k < j as int {
                k
            } else {
                k + 1
            }] == tb[k]);
        }
    }
}

/// One line of the overlay's body: its text, and whether it is emphasized.
pub struct BodyLine {
    pub text: String,
    pub emph: bool,
}

/// The (text, emphasis) pairs a sequence of body lines shows.
pub open spec fn body_view(lines: Seq<BodyLine>) -> Seq<(Seq<char>, bool)> {
    lines.map_values(|l: BodyLine| (l.text@, l.emph))
}

/// The (name, description) pairs a sequence of command entries carries.
pub open spec fn entries_view(cmds: Seq<CommandEntry>) -> Seq<(Seq<char>, Seq<char>)> {
    cmds.map_values(|c: CommandEntry| c.view_pair())
}

/// The (key, description) pair of one (name, description) pair, as a
/// relation value.
pub open spec fn keyed_fn() -> spec_fn((Seq<char>, Seq<char>)) -> (Seq<char>, Seq<char>) {
    |c: (Seq<char>, Seq<char>)| (key_of(c.0), c.1)
}

/// The formatted line of one (key, description) pair, as a relation value.
pub open spec fn pair_line_fn() -> spec_fn((Seq<char>, Seq<char>)) -> Seq<char> {
    |p: (Seq<char>, Seq<char>)| p.0 + " – "@ + p.1
}

/// The text of one body pair, as a relation value.
pub open spec fn pair_text_fn() -> spec_fn((Seq<char>, bool)) -> Seq<char> {
    |p: (Seq<char>, bool)| p.0
}

/// `sc` arranges the command set `cmds`: it holds the (key, description)
/// pair of each command, sorted ascending by the formatted `/<name>` key,
/// ties broken by the description.
pub open spec fn command_pairs_arranged(
    cmds: Seq<(Seq<char>, Seq<char>)>,
    sc: Seq<(Seq<char>, Seq<char>)>,
) -> bool {
    &&& sorted_by(sc, pair_le_fn())
    &&& sc.to_multiset() == cmds.map_values(keyed_fn()).to_multiset()
}

/// What the overlay's body shows for the command set `cmds`: a title, a
/// blank line and a section header; one formatted line per command, ordered
/// ascending by the `/<name>` key (description as tie-break); then a blank
/// line, a second section header, and five fixed shortcut lines.
pub open spec fn body_matches(
    cmds: Seq<(Seq<char>, Seq<char>)>,
    body: Seq<(Seq<char>, bool)>,
) -> bool {
    let n = cmds.len() as int;
    let seg = body.subrange(3, 3 + n).map_values(pair_text_fn());
    &&& body.len() == n + 10
    &&& body[0] == ("Available commands"@, true)
    &&& body[1] == (Seq::<char>::empty(), false)
    &&& body[2] == ("Slash-commands"@, true)
    &&& (exists|sc: Seq<(Seq<char>, Seq<char>)>|
        #[trigger] command_pairs_arranged(cmds, sc) && seg == sc.map_values(pair_line_fn()))
    &&& (forall|i: int| 3 <= i < 3 + n ==> (#[trigger] body[i]).1 == false)
    &&& body[3 + n] == (Seq::<char>::empty(), false)
    &&& body[4 + n] == ("Keyboard shortcuts"@, true)
    &&& body[5 + n] == ("Enter – send message"@, false)
    &&& body[6 + n] == ("Ctrl+J – insert newline"@, false)
    &&& body[7 + n] == ("Up/Down – scroll prompt history"@, false)
    &&& body[8 + n] == ("Esc(✕2) – interrupt current action"@, false)
    &&& body[9 + n] == ("Ctrl+C – quit Codex"@, false)
}

/// Builds the overlay's body for the given command set.
pub fn build_body_lines(commands: &Vec<CommandEntry>) -> (r: Vec<BodyLine>)
    ensures
        body_matches(entries_view(commands@), body_view(r@)),
{
    broadcast use vstd::seq_lib::to_multiset_build;

    let ghost cmds = entries_view(commands@);
    let mut sorted: Vec<(String, String)> = Vec::new();
    proof {
        assert(pairs_of(sorted@) =~= Seq::<(Seq<char>, Seq<char>)>::empty());
        assert(cmds.subrange(0, 0).map_values(keyed_fn()) =~= Seq::<(
            Seq<char>,
            Seq<char>,
        )>::empty());
    }
    let mut i: usize = 0;
    while i < commands.len()
        invariant
            i <= commands@.len(),
            cmds == entries_view(commands@),
            sorted_by(pairs_of(sorted@), pair_le_fn()),
            pairs_of(sorted@).to_multiset() == cmds.subrange(0, i as int).map_values(
                keyed_fn(),
            ).to_multiset(),
        decreases commands@.len() - i,
    {
        let entry = &commands[i];
        let mut key = String::from_str("/");
        key.append(trimmed(entry.name.as_str()));
        let desc = entry.description.clone();
        let ghost pv = (key@, desc@);
        let ghost pre_pairs = pairs_of(sorted@);
        proof {
            assert(cmds[i as int] == (commands@[i as int].name@, commands@[i as int].description@));
            assert(keyed_fn()(cmds[i as int]) == pv);
        }
        insert_sorted(&mut sorted, (key, desc));
        proof {
            let pre = cmds.subrange(0, i as int).map_values(keyed_fn());
            let post = cmds.subrange(0, i + 1).map_values(keyed_fn());
            assert(post =~= pre.push(pv));
            vstd::seq_lib::to_multiset_build(pre, pv);
            assert(pre.push(pv).to_multiset() == pre.to_multiset().insert(pv));
            assert(pairs_of(sorted@).to_multiset() == pre_pairs.to_multiset().insert(pv));
        }
        i = i + 1;
    }
    proof {
        broadcast use vstd::seq_lib::to_multiset_len;

        assert(cmds.subrange(0, cmds.len() as int) =~= cmds);
        assert(pairs_of(sorted@).len() == pairs_of(sorted@).to_multiset().len());
        assert(cmds.map_values(keyed_fn()).len() == cmds.map_values(
            keyed_fn(),
        ).to_multiset().len());
        assert(sorted@.len() == cmds.len());
    }
    let mut body: Vec<BodyLine> = Vec::new();
    body.push(BodyLine { text: String::from_str("Available commands"), emph: true });
    body.push(BodyLine { text: String::new(), emph: false });
    body.push(BodyLine { text: String::from_str("Slash-commands"), emph: true });
    let mut j: usize = 0;
    while j < sorted.len()
        invariant
            j <= sorted@.len(),
            body@.len() == 3 + j,
            body@[0].text@ == "Available commands"@ && body@[0].emph == true,
            body@[1].text@ == Seq::<char>::empty() && body@[1].emph == false,
            body@[2].text@ == "Slash-commands"@ && body@[2].emph == true,
            forall|k: int|
                0 <= k < j ==> (#[trigger] body@[3 + k]).text@ == pair_line_fn()(
                    pairs_of(sorted@)[k],
                ) && body@[3 + k].emph == false,
        decreases sorted@.len() - j,
    {
        let mut text = sorted[j].0.clone();
        text.append(" – ");
        text.append(sorted[j].1.as_str());
        proof {
            assert(text@ == pair_line_fn()(pairs_of(sorted@)[j as int]));
        }
        body.push(BodyLine { text, emph: false });
        j = j + 1;
    }
    let ghost mid = body@;
    body.push(BodyLine { text: String::new(), emph: false });
    body.push(BodyLine { text: String::from_str("Keyboard shortcuts"), emph: true });
    body.push(BodyLine { text: String::from_str("Enter – send message"), emph: false });
    body.push(BodyLine { text: String::from_str("Ctrl+J – insert newline"), emph: false });
    body.push(BodyLine { text: String::from_str("Up/Down – scroll prompt history"), emph: false });
    body.push(
        BodyLine { text: String::from_str("Esc(✕2) – interrupt current action"), emph: false },
    );
    body.push(BodyLine { text: String::from_str("Ctrl+C – quit Codex"), emph: false });
    proof {
        let n = cmds.len() as int;
        let bv = body_view(body@);
        assert(body@.len() == n + 10);
        assert(body@.subrange(0, mid.len() as int) =~= mid);
        let seg = bv.subrange(3, 3 + n).map_values(pair_text_fn());
        let sc = pairs_of(sorted@);
        assert forall|k: int| 0 <= k < n implies seg[k] == pair_line_fn()(sc[k]) by {
            assert(body@[3 + k] == mid[3 + k]);
            assert(bv[3 + k] == (body@[3 + k].text@, body@[3 + k].emph));
            assert(mid[3 + k].text@ == pair_line_fn()(sc[k]));
        }
        assert(seg =~= sc.map_values(pair_line_fn()));
        assert(command_pairs_arranged(cmds, sc));
        assert forall|i: int| 3 <= i < 3 + n implies (#[trigger] bv[i]).1 == false by {
            assert(body@[i] == mid[i]);
            assert(mid[3 + (i - 3)].emph == false);
        }
    }
    body
}

/// Whether a text holds no line break.
pub open spec fn no_newline(s: Seq<char>) -> bool {
    forall|i: int| 0 <= i < s.len() ==> s[i] != '\n'
}

/// Whether every command's name and description hold no line break.
pub open spec fn entries_newline_free(cmds: Seq<(Seq<char>, Seq<char>)>) -> bool {
    forall|k: int|
        0 <= k < cmds.len() ==> no_newline((#[trigger] cmds[k]).0) && no_newline(cmds[k].1)
}

/// Every line of a body built for a newline-free command set is itself
/// newline-free.
pub proof fn lemma_body_newline_free(
    cmds: Seq<(Seq<char>, Seq<char>)>,
    body: Seq<(Seq<char>, bool)>,
)
    requires
        body_matches(cmds, body),
        entries_newline_free(cmds),
    ensures
        forall|k: int| 0 <= k < body.len() ==> no_newline((#[trigger] body[k]).0),
{
    broadcast use vstd::seq_lib::to_multiset_contains;

    reveal_strlit("Available commands");
    reveal_strlit("Slash-commands");
    reveal_strlit("Keyboard shortcuts");
    reveal_strlit("Enter – send message");
    reveal_strlit("Ctrl+J – insert newline");
    reveal_strlit("Up/Down – scroll prompt history");
    reveal_strlit("Esc(✕2) – interrupt current action");
    reveal_strlit("Ctrl+C – quit Codex");
    reveal_strlit("/");
    reveal_strlit(" – ");
    let n = cmds.len() as int;
    let seg = body.subrange(3, 3 + n).map_values(pair_text_fn());
    let sc = choose|sc: Seq<(Seq<char>, Seq<char>)>|
        #[trigger] command_pairs_arranged(cmds, sc) && seg == sc.map_values(pair_line_fn());
    let mapped = cmds.map_values(keyed_fn());
    assert(seg.len() == n);
    assert(sc.map_values(pair_line_fn()).len() == sc.len());
    assert(sc.len() == n);
    assert forall|k: int| 0 <= k < body.len() implies no_newline((#[trigger] body[k]).0) by {
        if 3 <= k < 3 + n {
            let u = sc[k - 3];
            assert(sc.contains(u));
            assert(mapped.to_multiset().count(u) > 0);
            assert(mapped.contains(u));
            let m = choose|m: int| 0 <= m < mapped.len() && mapped[m] == u;
            assert(u == (key_of(cmds[m].0), cmds[m].1));
            assert(no_newline(cmds[m].0) && no_newline(cmds[m].1));
            assert(body[k].0 == seg[k - 3] && seg[k - 3] == u.0 + " – "@ + u.1);
            assert forall|i: int| 0 <= i < body[k].0.len() implies body[k].0[i] != '\n' by {
                let key = key_of(cmds[m].0);
                if i < key.len() {
                    if i >= 1 {
                        assert(key[i] == trim_slash(cmds[m].0)[i - 1]);
                    }
                } else if i < key.len() + 3 {
                    assert(body[k].0[i] == " – "@[i - key.len()]);
                } else {
                    assert(body[k].0[i] == cmds[m].1[i - key.len() - 3]);
                }
            }
        }
    }
}

proof fn lemma_line_le_append(c: Seq<char>, a: Seq<char>, b: Seq<char>)
    ensures
        line_le(c + a, c + b) == line_le(a, b),
    decreases c.len(),
{
    if c.len() == 0 {
        assert(c + a =~= a);
        assert(c + b =~= b);
    } else {
        assert((c + a)[0] == c[0] && (c + b)[0] == c[0]);
        assert((c + a).drop_first() =~= c.drop_first() + a);
        assert((c + b).drop_first() =~= c.drop_first() + b);
        lemma_line_le_append(c.drop_first(), a, b);
    }
}

/// The first index at which `a` continues with a smaller character than `b`.
pub open spec fn first_diff_below(a: Seq<char>, b: Seq<char>, i: int) -> bool {
    &&& 0 <= i < a.len()
    &&& i < b.len()
    &&& (forall|j: int| 0 <= j < i ==> a[j] == b[j])
    &&& (a[i] as int) < (b[i] as int)
}

proof fn lemma_line_le_from_diff(a: Seq<char>, b: Seq<char>, i: int)
    requires
        first_diff_below(a, b, i),
    ensures
        line_le(a, b),
        !line_le(b, a),
    decreases i,
{
    if i > 0 {
        assert(a[0] == b[0]);
        assert forall|j: int| 0 <= j < i - 1 implies a.drop_first()[j] == b.drop_first()[j] by {
            assert(a[j + 1] == b[j + 1]);
        }
        assert(a.drop_first()[i - 1] == a[i] && b.drop_first()[i - 1] == b[i]);
        lemma_line_le_from_diff(a.drop_first(), b.drop_first(), i - 1);
    }
}

proof fn lemma_line_lt_cases(a: Seq<char>, b: Seq<char>)
    requires
        line_le(a, b),
        a != b,
    ensures
        (a.len() < b.len() && a == b.subrange(0, a.len() as int)) || (exists|i: int|
            first_diff_below(a, b, i)),
    decreases a.len(),
{
    if a.len() == 0 {
        assert(b.len() > 0) by {
            if b.len() == 0 {
                assert(a =~= b);
            }
        }
        assert(a =~= b.subrange(0, 0));
    } else {
        assert(b.len() > 0);
        if (a[0] as int) < (b[0] as int) {
            assert(first_diff_below(a, b, 0));
        } else {
            assert(a[0] == b[0]);
            let a1 = a.drop_first();
            let b1 = b.drop_first();
            if a1 == b1 {
                assert forall|j: int| 0 <= j < a.len() implies a[j] == b[j] by {
                    if j > 0 {
                        assert(a1[j - 1] == b1[j - 1]);
                    }
                }
                assert(a =~= b);
            } else {
                lemma_line_lt_cases(a1, b1);
                if a1.len() < b1.len() && a1 == b1.subrange(0, a1.len() as int) {
                    assert forall|j: int| 0 <= j < a.len() implies a[j] == b.subrange(
                        0,
                        a.len() as int,
                    )[j] by {
                        if j > 0 {
                            assert(a1[j - 1] == b1.subrange(0, a1.len() as int)[j - 1]);
                            assert(b1[j - 1] == b[j]);
                        }
                    }
                    assert(a =~= b.subrange(0, a.len() as int));
                } else {
                    let i1 = choose|i: int| first_diff_below(a1, b1, i);
                    assert forall|j: int| 0 <= j < i1 + 1 implies a[j] == b[j] by {
                        if j > 0 {
                            assert(a1[j - 1] == b1[j - 1]);
                        }
                    }
                    assert(a[i1 + 1] == a1[i1] && b[i1 + 1] == b1[i1]);
                    assert(first_diff_below(a, b, i1 + 1));
                }
            }
        }
    }
}

/// The command sets on which ordering by the `/<name>` key agrees with
/// ordering by the whole formatted line: no command's key runs on from
/// another command's key with a character at or below the space.
pub open spec fn keys_separate(cmds: Seq<(Seq<char>, Seq<char>)>) -> bool {
    forall|x: int, y: int|
        0 <= x < cmds.len() && 0 <= y < cmds.len() && key_of((#[trigger] cmds[x]).0).len()
            < key_of((#[trigger] cmds[y]).0).len() && key_of(cmds[x].0) == key_of(
            cmds[y].0,
        ).subrange(0, key_of(cmds[x].0).len() as int) ==> (key_of(cmds[y].0)[key_of(
            cmds[x].0,
        ).len() as int] as int) > (' ' as int)
}

/// For a command set whose keys are separate, the formatted command lines
/// appear in the body in non-decreasing lexicographic order of the whole
/// formatted `/<name> – <description>` text, whatever order the source
/// supplied them in.
pub proof fn lemma_body_lines_sorted(
    cmds: Seq<(Seq<char>, Seq<char>)>,
    body: Seq<(Seq<char>, bool)>,
)
    requires
        body_matches(cmds, body),
        keys_separate(cmds),
    ensures
        sorted_by(
            body.subrange(3, 3 + cmds.len() as int).map_values(pair_text_fn()),
            line_le_fn(),
        ),
{
    broadcast use vstd::seq_lib::to_multiset_contains;

    let n = cmds.len() as int;
    let seg = body.subrange(3, 3 + n).map_values(pair_text_fn());
    let sc = choose|sc: Seq<(Seq<char>, Seq<char>)>|
        #[trigger] command_pairs_arranged(cmds, sc) && seg == sc.map_values(pair_line_fn());
    let mapped = cmds.map_values(keyed_fn());
    let ghost sep = " – "@;
    assert forall|p: int, q: int| 0 <= p < q < seg.len() implies #[trigger] line_le_fn()(
        seg[p],
        seg[q],
    ) by {
        reveal_strlit(" – ");
        let u = sc[p];
        let v = sc[q];
        assert(pair_le_fn()(u, v));
        assert(sc.contains(u) && sc.contains(v));
        assert(mapped.to_multiset().count(u) > 0 && mapped.to_multiset().count(v) > 0);
        assert(mapped.contains(u) && mapped.contains(v));
        let mu = choose|m: int| 0 <= m < mapped.len() && mapped[m] == u;
        let mv = choose|m: int| 0 <= m < mapped.len() && mapped[m] == v;
        assert(u == (key_of(cmds[mu].0), cmds[mu].1));
        assert(v == (key_of(cmds[mv].0), cmds[mv].1));
        let lu = u.0 + sep + u.1;
        let lv = v.0 + sep + v.1;
        assert(seg[p] == lu && seg[q] == lv);
        if u.0 == v.0 {
            assert(line_le(u.1, v.1));
            lemma_line_le_append(u.0 + sep, u.1, v.1);
        } else {
            assert(line_le(u.0, v.0));
            lemma_line_lt_cases(u.0, v.0);
            if u.0.len() < v.0.len() && u.0 == v.0.subrange(0, u.0.len() as int) {
                let m = u.0.len() as int;
                assert((v.0[m] as int) > (' ' as int));
                assert forall|j: int| 0 <= j < m implies lu[j] == lv[j] by {
                    assert(u.0[j] == v.0.subrange(0, m)[j]);
                }
                assert(lu[m] == sep[0] && sep[0] == ' ');
                assert(lv[m] == v.0[m]);
                assert(first_diff_below(lu, lv, m));
                lemma_line_le_from_diff(lu, lv, m);
            } else {
                let i0 = choose|i: int| first_diff_below(u.0, v.0, i);
                assert forall|j: int| 0 <= j < i0 implies lu[j] == lv[j] by {
                    assert(u.0[j] == v.0[j]);
                }
                assert(lu[i0] == u.0[i0] && lv[i0] == v.0[i0]);
                assert(first_diff_below(lu, lv, i0));
                lemma_line_le_from_diff(lu, lv, i0);
            }
        }
    }
}

/// The body is a function of the command set alone: any two bodies that
/// `body_matches` accepts for the same command set are equal, so repeated
/// construction yields identical output.
pub proof fn lemma_body_unique(
    cmds: Seq<(Seq<char>, Seq<char>)>,
    b1: Seq<(Seq<char>, bool)>,
    b2: Seq<(Seq<char>, bool)>,
)
    requires
        body_matches(cmds, b1),
        body_matches(cmds, b2),
    ensures
        b1 == b2,
{
    lemma_pair_le_total_ordering();
    let n = cmds.len() as int;
    let seg1 = b1.subrange(3, 3 + n).map_values(pair_text_fn());
    let seg2 = b2.subrange(3, 3 + n).map_values(pair_text_fn());
    let sc1 = choose|sc: Seq<(Seq<char>, Seq<char>)>|
        #[trigger] command_pairs_arranged(cmds, sc) && seg1 == sc.map_values(pair_line_fn());
    let sc2 = choose|sc: Seq<(Seq<char>, Seq<char>)>|
        #[trigger] command_pairs_arranged(cmds, sc) && seg2 == sc.map_values(pair_line_fn());
    lemma_sorted_unique(sc1, sc2, pair_le_fn());
    assert forall|i: int| 0 <= i < b1.len() implies b1[i] == b2[i] by {
        if 3 <= i < 3 + n {
            assert(seg1[i - 3] == seg2[i - 3]);
            assert(b1[i].0 == seg1[i - 3] && b2[i].0 == seg2[i - 3]);
            assert(b1[i].1 == false && b2[i].1 == false);
            assert(b1[i] == (b1[i].0, b1[i].1) && b2[i] == (b2[i].0, b2[i].1));
        }
    }
    assert(b1 =~= b2);
}

} // verus!
