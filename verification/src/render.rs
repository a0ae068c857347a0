//! HTML rendering of test results: escaping, cell layout and the table of
//! runs, all over plain string values handed in by the caller.

use crate::decimal::spec_decimal;
use crate::decimal::u128_to_decimal;
use vstd::prelude::*;

verus! {

/// Whether `c` is one of the characters the trimming of displayed test text
/// discards: the Unicode white space characters.
pub open spec fn is_space_char(c: char) -> bool {
    ||| 0x9 <= c as int <= 0xd
    ||| c as int == 0x20
    ||| c as int == 0x85
    ||| c as int == 0xa0
    ||| c as int == 0x1680
    ||| 0x2000 <= c as int <= 0x200a
    ||| c as int == 0x2028
    ||| c as int == 0x2029
    ||| c as int == 0x202f
    ||| c as int == 0x205f
    ||| c as int == 0x3000
}

/// `s` without its leading white space.
pub open spec fn trim_front(s: Seq<char>) -> Seq<char>
    decreases s.len(),
{
    if s.len() > 0 && is_space_char(s[0]) {
        trim_front(s.drop_first())
    } else {
        s
    }
}

/// `s` without its trailing white space.
pub open spec fn trim_back(s: Seq<char>) -> Seq<char>
    decreases s.len(),
{
    if s.len() > 0 && is_space_char(s.last()) {
        trim_back(s.drop_last())
    } else {
        s
    }
}

/// `s` without leading and trailing white space.
pub open spec fn spec_trim(s: Seq<char>) -> Seq<char> {
    trim_back(trim_front(s))
}

/// Whether `c` is discarded by trimming.
fn is_space(c: char) -> (r: bool)
    ensures
        r == is_space_char(c),
{
    let u = c as u32;
    (0x9 <= u && u <= 0xd) || u == 0x20 || u == 0x85 || u == 0xa0 || u == 0x1680 || (0x2000 <= u
        && u <= 0x200a) || u == 0x2028 || u == 0x2029 || u == 0x202f || u == 0x205f || u == 0x3000
}

/// Trimming a sequence whose first `i` characters are white space drops all
/// of them at once.
proof fn lemma_trim_front_skip(s: Seq<char>, i: int)
    requires
        0 <= i <= s.len(),
        forall|j: int| 0 <= j < i ==> is_space_char(#[trigger] s[j]),
        i < s.len() ==> !is_space_char(s[i]),
    ensures
        trim_front(s) == s.skip(i),
    decreases i,
{
    if i == 0 {
        assert(s.skip(0) =~= s);
    } else {
        assert(s.drop_first() =~= s.skip(1));
        assert(s.skip(1).skip(i - 1) =~= s.skip(i));
        lemma_trim_front_skip(s.skip(1), i - 1);
    }
}

/// Trimming a sequence whose characters from `k` on are white space drops
/// all of them at once.
proof fn lemma_trim_back_take(s: Seq<char>, k: int)
    requires
        0 <= k <= s.len(),
        forall|j: int| k <= j < s.len() ==> is_space_char(#[trigger] s[j]),
        k > 0 ==> !is_space_char(s[k - 1]),
    ensures
        trim_back(s) == s.take(k),
    decreases s.len(),
{
    if s.len() > 0 && is_space_char(s.last()) {
        assert(s.last() == s[s.len() - 1]);
        assert(k < s.len());
        assert(s.drop_last() =~= s.take(s.len() - 1));
        lemma_trim_back_take(s.drop_last(), k);
        assert(s.take(k) =~= s.drop_last().take(k));
    } else {
        assert(k == s.len()) by {
            if k < s.len() {
                assert(is_space_char(s[s.len() - 1]));
                assert(s.last() == s[s.len() - 1]);
            }
        }
        assert(s.take(k) =~= s);
    }
}

/// `s` without leading and trailing white space, as [`str::trim`] yields it.
pub fn trim(s: &str) -> (r: String)
    ensures
        r@ == spec_trim(s@),
{
    let n = s.unicode_len();
    let mut i: usize = 0;
    while i < n && is_space(s.get_char(i))
        invariant
            n == s@.len(),
            0 <= i <= n,
            forall|j: int| 0 <= j < i ==> is_space_char(#[trigger] s@[j]),
        decreases n - i,
    {
        i += 1;
    }
    proof {
        lemma_trim_front_skip(s@, i as int);
    }
    let mut j: usize = n;
    while j > i && is_space(s.get_char(j - 1))
        invariant
            n == s@.len(),
            0 <= i <= j <= n,
            forall|k: int| j <= k < n ==> is_space_char(#[trigger] s@[k]),
        decreases j,
    {
        j -= 1;
    }
    let piece = s.substring_char(i, j);
    proof {
        let front = s@.skip(i as int);
        assert(forall|k: int|
            j - i <= k < front.len() ==> is_space_char(#[trigger] front[k]) && front[k] == s@[k
                + i]);
        if j > i {
            assert(!is_space_char(front[j - i - 1]));
        }
        lemma_trim_back_take(front, j - i);
        assert(front.take(j - i) =~= s@.subrange(i as int, j as int));
    }
    String::from_str(piece)
}

/// The replacement the translation table prescribes for `c`: the expansion
/// of the first matching rule, or `c` itself where no rule matches.
pub open spec fn translate_char(c: char, table: Seq<(char, Seq<char>)>) -> Seq<char>
    decreases table.len(),
{
    if table.len() == 0 {
        seq![c]
    } else if table[0].0 == c {
        table[0].1
    } else {
        translate_char(c, table.drop_first())
    }
}

/// `s` with every character replaced as the translation table prescribes.
pub open spec fn spec_translate(s: Seq<char>, table: Seq<(char, Seq<char>)>) -> Seq<char>
    decreases s.len(),
{
    if s.len() == 0 {
        Seq::empty()
    } else {
        translate_char(s[0], table) + spec_translate(s.drop_first(), table)
    }
}

/// The view of an executable translation table.
pub open spec fn table_view(table: Seq<(char, &str)>) -> Seq<(char, Seq<char>)> {
    table.map_values(|rule: (char, &str)| (rule.0, rule.1@))
}

/// A table whose first `k` rules do not mention `c` translates `c` as its
/// remaining rules do.
proof fn lemma_translate_char_skip(c: char, table: Seq<(char, Seq<char>)>, k: int)
    requires
        0 <= k <= table.len(),
        forall|j: int| 0 <= j < k ==> (#[trigger] table[j]).0 != c,
    ensures
        translate_char(c, table) == translate_char(c, table.skip(k)),
    decreases k,
{
    if k == 0 {
        assert(table.skip(0) =~= table);
    } else {
        assert(table.drop_first() =~= table.skip(1));
        assert(table.skip(1).skip(k - 1) =~= table.skip(k));
        lemma_translate_char_skip(c, table.skip(1), k - 1);
    }
}

/// Translation distributes over appending one character.
proof fn lemma_translate_snoc(s: Seq<char>, c: char, table: Seq<(char, Seq<char>)>)
    ensures
        spec_translate(s.push(c), table) == spec_translate(s, table) + translate_char(c, table),
    decreases s.len(),
{
    if s.len() == 0 {
        assert(s.push(c)[0] == c);
        assert(s.push(c).drop_first() =~= Seq::<char>::empty());
        assert(spec_translate(Seq::<char>::empty(), table) == Seq::<char>::empty());
        assert(spec_translate(s.push(c), table) == translate_char(c, table) + spec_translate(
            Seq::<char>::empty(),
            table,
        ));
        assert(translate_char(c, table) + Seq::<char>::empty() =~= translate_char(c, table));
        assert(spec_translate(s, table) + translate_char(c, table) =~= translate_char(c, table));
    } else {
        assert(s.push(c)[0] == s[0]);
        assert(s.push(c).drop_first() =~= s.drop_first().push(c));
        lemma_translate_snoc(s.drop_first(), c, table);
        assert(spec_translate(s.push(c), table) =~= spec_translate(s, table) + translate_char(
            c,
            table,
        ));
    }
}

/// The expansion of the first rule matching `c`, if any rule does.
fn lookup<'a>(c: char, table: &[(char, &'a str)]) -> (r: Option<&'a str>)
    ensures
        match r {
            Some(t) => t@ == translate_char(c, table_view(table@)),
            None => translate_char(c, table_view(table@)) == seq![c],
        },
{
    let n = table.len();
    let mut k: usize = 0;
    while k < n
        invariant
            n == table@.len(),
            0 <= k <= n,
            forall|j: int| 0 <= j < k ==> (#[trigger] table_view(table@)[j]).0 != c,
        decreases n - k,
    {
        if table[k].0 == c {
            proof {
                lemma_translate_char_skip(c, table_view(table@), k as int);
                assert(table_view(table@).skip(k as int)[0] == table_view(table@)[k as int]);
            }
            return Some(table[k].1);
        }
        proof {
            assert(table_view(table@)[k as int].0 == table@[k as int].0);
        }
        k += 1;
    }
    proof {
        lemma_translate_char_skip(c, table_view(table@), n as int);
        assert(table_view(table@).skip(n as int) =~= Seq::<(char, Seq<char>)>::empty());
    }
    None
}

/// Replace every character of `s` by the expansion its first matching rule
/// in `table` prescribes, keeping characters no rule mentions.
pub fn translate(s: &str, table: &[(char, &str)]) -> (r: String)
    ensures
        r@ == spec_translate(s@, table_view(table@)),
{
    let mut buf = String::new();
    let n = s.unicode_len();
    let mut i: usize = 0;
    while i < n
        invariant
            n == s@.len(),
            0 <= i <= n,
            buf@ == spec_translate(s@.take(i as int), table_view(table@)),
        decreases n - i,
    {
        let c = s.get_char(i);
        match lookup(c, table) {
            Some(t) => buf.append(t),
            None => {
                let piece = s.substring_char(i, i + 1);
                proof {
                    assert(piece@ =~= seq![c]);
                }
                buf.append(piece);
            },
        }
        proof {
            lemma_translate_snoc(s@.take(i as int), c, table_view(table@));
            assert(s@.take(i as int).push(c) =~= s@.take(i + 1));
        }
        i += 1;
    }
    proof {
        assert(s@.take(n as int) =~= s@);
    }
    buf
}

/// The escaping table for HTML text content.
pub open spec fn escape_table() -> Seq<(char, Seq<char>)> {
    seq![
        ('\n', "<br/>"@),
        ('&', "&amp;"@),
        ('<', "&lt;"@),
        ('>', "&gt;"@),
        ('"', "&quot;"@),
        ('\'', "&#39;"@),
    ]
}

/// The escaping table for HTML attribute values: as the text table, except
/// that line breaks are kept.
pub open spec fn attr_escape_table() -> Seq<(char, Seq<char>)> {
    seq![('&', "&amp;"@), ('<', "&lt;"@), ('>', "&gt;"@), ('"', "&quot;"@), ('\'', "&#39;"@)]
}

/// Escape `s` for use as HTML text, turning line breaks into break tags.
pub fn html_escape(s: &str) -> (r: String)
    ensures
        r@ == spec_translate(s@, escape_table()),
{
    let mut table: Vec<(char, &str)> = Vec::new();
    table.push(('\n', "<br/>"));
    table.push(('&', "&amp;"));
    table.push(('<', "&lt;"));
    table.push(('>', "&gt;"));
    table.push(('"', "&quot;"));
    table.push(('\'', "&#39;"));
    let r = translate(s, table.as_slice());
    proof {
        assert(table_view(table@) =~~= escape_table());
    }
    r
}

/// Escape `s` for use inside an HTML attribute value.
pub fn html_attr_escape(s: &str) -> (r: String)
    ensures
        r@ == spec_translate(s@, attr_escape_table()),
{
    let mut table: Vec<(char, &str)> = Vec::new();
    table.push(('&', "&amp;"));
    table.push(('<', "&lt;"));
    table.push(('>', "&gt;"));
    table.push(('"', "&quot;"));
    table.push(('\'', "&#39;"));
    let r = translate(s, table.as_slice());
    proof {
        assert(table_view(table@) =~~= attr_escape_table());
    }
    r
}

/// When a rendered cell of an accepted test is hidden or folded away.
#[derive(Clone, Copy, Debug)]
pub enum HideBehaviour {
    /// Hide it in every view.
    Always,
    /// Hide it only while some test of the view failed.
    IfAnyFailed,
    /// Never hide it.
    Never,
}

impl HideBehaviour {
    /// What [`HideBehaviour::should`] decides.
    pub open spec fn spec_should(self, any_failed: bool) -> bool {
        match self {
            HideBehaviour::Always => true,
            HideBehaviour::IfAnyFailed => any_failed,
            HideBehaviour::Never => false,
        }
    }

    /// Whether this behaviour hides a cell, given whether any test failed.
    pub fn should(&self, any_failed: bool) -> (r: bool)
        ensures
            r == self.spec_should(any_failed),
    {
        match self {
            HideBehaviour::Always => true,
            HideBehaviour::IfAnyFailed => any_failed,
            HideBehaviour::Never => false,
        }
    }
}

/// Whether the break tag stands at position `i` of `s`.
pub open spec fn is_break_at(s: Seq<char>, i: int) -> bool {
    i + 5 <= s.len() && s.subrange(i, i + 5) == "<br/>"@
}

/// The positions of the non-overlapping break tags of `s`, scanning from
/// position `i` leftmost-first.
pub open spec fn break_positions_from(s: Seq<char>, i: int) -> Seq<int>
    decreases s.len() - i + 5,
{
    if i < 0 || i + 5 > s.len() {
        Seq::empty()
    } else if is_break_at(s, i) {
        seq![i] + break_positions_from(s, i + 5)
    } else {
        break_positions_from(s, i + 1)
    }
}

/// The positions of the non-overlapping break tags of `s`, leftmost-first.
pub open spec fn break_positions(s: Seq<char>) -> Seq<int> {
    break_positions_from(s, 0)
}

/// Whether the break tag stands at position `i`, checked by characters.
fn break_at(s: &str, n: usize, i: usize) -> (r: bool)
    requires
        n == s@.len(),
        i + 5 <= n,
    ensures
        r == is_break_at(s@, i as int),
{
    let r = s.get_char(i) == '<' && s.get_char(i + 1) == 'b' && s.get_char(i + 2) == 'r'
        && s.get_char(i + 3) == '/' && s.get_char(i + 4) == '>';
    proof {
        reveal_strlit("<br/>");
        if r {
            assert(s@.subrange(i as int, i + 5) =~= "<br/>"@);
        } else {
            assert(s@.subrange(i as int, i + 5) != "<br/>"@) by {
                if s@.subrange(i as int, i + 5) == "<br/>"@ {
                    assert(s@.subrange(i as int, i + 5)[0] == s@[i as int]);
                    assert(s@.subrange(i as int, i + 5)[1] == s@[i + 1]);
                    assert(s@.subrange(i as int, i + 5)[2] == s@[i + 2]);
                    assert(s@.subrange(i as int, i + 5)[3] == s@[i + 3]);
                    assert(s@.subrange(i as int, i + 5)[4] == s@[i + 4]);
                }
            }
        }
    }
    r
}

/// The break-tag positions of `s`, found by a left-to-right scan.
fn find_breaks(s: &str) -> (r: Vec<usize>)
    ensures
        r@.map_values(|p: usize| p as int) == break_positions(s@),
        forall|k: int| 0 <= k < r@.len() ==> (#[trigger] r@[k]) + 5 <= s@.len(),
        r@.len() * 5 <= usize::MAX,
{
    let n = s.unicode_len();
    let mut found: Vec<usize> = Vec::new();
    if n < 5 {
        proof {
            assert(found@.map_values(|p: usize| p as int) =~= break_positions(s@));
        }
        return found;
    }
    let mut i: usize = 0;
    while i <= n - 5
        invariant
            n == s@.len(),
            5 <= n,
            0 <= i <= n,
            break_positions(s@) == found@.map_values(|p: usize| p as int)
                + break_positions_from(s@, i as int),
            forall|k: int| 0 <= k < found@.len() ==> (#[trigger] found@[k]) + 5 <= n,
            found@.len() * 5 <= i,
        decreases n - i,
    {
        let ghost pre = found@;
        if break_at(s, n, i) {
            found.push(i);
            proof {
                assert(found@.map_values(|p: usize| p as int) =~= pre.map_values(
                    |p: usize| p as int,
                ).push(i as int));
                assert(pre.map_values(|p: usize| p as int).push(i as int)
                    + break_positions_from(s@, i + 5) =~= pre.map_values(|p: usize| p as int) + (
                seq![i as int] + break_positions_from(s@, i + 5)));
            }
            i += 5;
        } else {
            i += 1;
        }
    }
    proof {
        assert(break_positions_from(s@, i as int) =~= Seq::<int>::empty());
        assert(found@.map_values(|p: usize| p as int) + Seq::<int>::empty() =~= found@.map_values(
            |p: usize| p as int,
        ));
    }
    found
}

/// The cell text of one rendered test datum, assembled from the raw texts.
pub struct Data {
    /// The escaped HTML of the datum.
    pub html: String,
}

impl Data {
    /// What [`Data::raw`] builds: the trimmed text, escaped.
    pub open spec fn spec_raw(text: Seq<char>) -> Seq<char> {
        spec_translate(spec_trim(text), escape_table())
    }

    /// A datum showing one trimmed, escaped text.
    pub fn raw(text: &str) -> (r: Data)
        ensures
            r.html@ == Self::spec_raw(text@),
    {
        let trimmed = trim(text);
        Data { html: html_escape(trimmed.as_str()) }
    }

    /// What [`Data::stdout_stderr`] builds: the trimmed, escaped error text
    /// in its own division, followed by the trimmed, escaped output.
    pub open spec fn spec_stdout_stderr(stdout: Seq<char>, stderr: Seq<char>) -> Seq<char> {
        "<div class=\"stderr\">"@ + spec_translate(spec_trim(stderr), escape_table()) + "</div>"@
            + spec_translate(spec_trim(stdout), escape_table())
    }

    /// A datum showing a run's output together with its error stream.
    pub fn stdout_stderr(stdout: &str, stderr: &str) -> (r: Data)
        ensures
            r.html@ == Self::spec_stdout_stderr(stdout@, stderr@),
    {
        let stdout = trim(stdout);
        let stderr = trim(stderr);
        let mut html = String::from_str("<div class=\"stderr\">");
        let escaped_err = html_escape(stderr.as_str());
        html.append(escaped_err.as_str());
        html.append("</div>");
        let escaped_out = html_escape(stdout.as_str());
        html.append(escaped_out.as_str());
        Data { html }
    }

    /// What [`Data::truncate_lines`] yields for a datum of html `s` under
    /// `limit`: the full html and its line count where no limit applies or
    /// the lines fit, otherwise the html cut at the `limit`-th break tag,
    /// reported as `limit + 1` lines.
    pub open spec fn spec_truncate_lines(s: Seq<char>, limit: int) -> (Seq<char>, int) {
        let breaks = break_positions(s);
        if limit == 0 || breaks.len() + 1 <= limit + 1 {
            (s, breaks.len() as int + 1)
        } else {
            (s.take(breaks[limit - 1]), limit + 1)
        }
    }

    /// Cut the datum's html after `limit` display lines — the pieces its
    /// break tags separate — leaving it whole when `limit` is 0 or nothing
    /// exceeds it; also yield the number of lines kept.
    pub fn truncate_lines(&self, limit: usize) -> (r: (String, usize))
        ensures
            (r.0@, r.1 as int) == Self::spec_truncate_lines(self.html@, limit as int),
    {
        let breaks = find_breaks(self.html.as_str());
        let count = breaks.len() + 1;
        if limit == 0 || count - 1 <= limit {
            (self.html.clone(), count)
        } else {
            let pos = breaks[limit - 1];
            let piece = self.html.as_str().substring_char(0, pos);
            proof {
                assert(breaks@.map_values(|p: usize| p as int)[limit - 1] == pos as int);
                assert(self.html@.subrange(0, pos as int) =~= self.html@.take(pos as int));
            }
            (String::from_str(piece), limit + 1)
        }
    }
}

/// One action button of a rendered cell.
pub struct Action {
    /// The script call the button triggers.
    pub onclick: &'static str,
    /// The icon name shown on the button.
    pub icon: &'static str,
    /// The tooltip of the button.
    pub hint: &'static str,
}

/// The copy-contents action.
pub fn action_copy() -> (r: Action)
    ensures
        r.onclick@ == "trigger_copy()"@ && r.icon@ == "file_copy"@ && r.hint@ == "Copy contents"@,
{
    Action { onclick: "trigger_copy()", icon: "file_copy", hint: "Copy contents" }
}

/// The edit action.
pub fn action_edit() -> (r: Action)
    ensures
        r.onclick@ == "trigger_edit()"@ && r.icon@ == "edit"@ && r.hint@ == "Edit"@,
{
    Action { onclick: "trigger_edit()", icon: "edit", hint: "Edit" }
}

/// The debug-in-gdb action.
pub fn action_gdb() -> (r: Action)
    ensures
        r.onclick@ == "trigger_gdb()"@ && r.icon@ == "skip_previous"@ && r.hint@
            == "Debug in GDB"@,
{
    Action { onclick: "trigger_gdb()", icon: "skip_previous", hint: "Debug in GDB" }
}

/// The debug-in-rr action.
pub fn action_rr() -> (r: Action)
    ensures
        r.onclick@ == "trigger_rr()"@ && r.icon@ == "fast_rewind"@ && r.hint@ == "Debug in RR"@,
{
    Action { onclick: "trigger_rr()", icon: "fast_rewind", hint: "Debug in RR" }
}

/// The accept-as-alternative-output action.
pub fn action_set_alt() -> (r: Action)
    ensures
        r.onclick@ == "trigger_set_alt()"@ && r.icon@ == "check"@ && r.hint@
            == "Set as an alternative correct output"@,
{
    Action {
        onclick: "trigger_set_alt()",
        icon: "check",
        hint: "Set as an alternative correct output",
    }
}

/// The stop-accepting-this-output action.
pub fn action_del_alt() -> (r: Action)
    ensures
        r.onclick@ == "trigger_del_alt()"@ && r.icon@ == "close"@ && r.hint@
            == "Stop accepting this output"@,
{
    Action { onclick: "trigger_del_alt()", icon: "close", hint: "Stop accepting this output" }
}

/// The html of one action button.
pub open spec fn action_html(a: Action) -> Seq<char> {
    "<div class=\"test-action material-icons\" onclick=\""@ + a.onclick@ + "\" title=\""@
        + a.hint@ + "\">"@ + a.icon@ + "</div>"@
}

/// The html of a row of action buttons, in order.
pub open spec fn actions_html(actions: Seq<Action>) -> Seq<char>
    decreases actions.len(),
{
    if actions.len() == 0 {
        Seq::empty()
    } else {
        action_html(actions[0]) + actions_html(actions.drop_first())
    }
}

/// A row of action buttons renders per button.
proof fn lemma_actions_html_snoc(actions: Seq<Action>, a: Action)
    ensures
        actions_html(actions.push(a)) == actions_html(actions) + action_html(a),
    decreases actions.len(),
{
    if actions.len() == 0 {
        assert(actions.push(a)[0] == a);
        assert(actions.push(a).drop_first() =~= Seq::<Action>::empty());
        assert(actions_html(Seq::<Action>::empty()) == Seq::<char>::empty());
        assert(action_html(a) + Seq::<char>::empty() =~= action_html(a));
        assert(Seq::<char>::empty() + action_html(a) =~= action_html(a));
    } else {
        assert(actions.push(a)[0] == actions[0]);
        assert(actions.push(a).drop_first() =~= actions.drop_first().push(a));
        lemma_actions_html_snoc(actions.drop_first(), a);
        assert(action_html(actions[0]) + (actions_html(actions.drop_first()) + action_html(a))
            =~= (action_html(actions[0]) + actions_html(actions.drop_first())) + action_html(a));
    }
}

/// Two rows of buttons whose texts agree render alike.
proof fn lemma_actions_html_congruent(a: Seq<Action>, b: Seq<Action>)
    requires
        a.len() == b.len(),
        forall|i: int|
            0 <= i < a.len() ==> (#[trigger] a[i]).onclick@ == b[i].onclick@ && a[i].icon@
                == b[i].icon@ && a[i].hint@ == b[i].hint@,
    ensures
        actions_html(a) == actions_html(b),
    decreases a.len(),
{
    if a.len() > 0 {
        assert(forall|i: int|
            0 <= i < a.drop_first().len() ==> (#[trigger] a.drop_first()[i]) == a[i + 1]
                && b.drop_first()[i] == b[i + 1]);
        lemma_actions_html_congruent(a.drop_first(), b.drop_first());
    }
}

/// The html of a cell's note, if it carries one.
pub open spec fn note_html(note: Option<Seq<char>>) -> Seq<char> {
    match note {
        Some(n) => "<div class=\"test-note\">"@ + n + "</div>"@,
        None => Seq::empty(),
    }
}

/// One decimal digit past the point of eleven tenths of `lines`: the cell
/// height in em units.
pub open spec fn spec_height_em(lines: int) -> Seq<char> {
    spec_decimal((lines * 11 / 10) as nat) + seq!['.'] + spec_decimal((lines * 11 % 10) as nat)
}

/// What [`render_cell`] emits: a folded cell is an empty placeholder; an
/// unfolded one sizes itself by its kept line count and shows its action
/// buttons, its (possibly truncated) datum, and its note.
pub open spec fn spec_render_cell(
    class: Seq<char>,
    actions: Seq<Action>,
    data_html: Seq<char>,
    note: Option<Seq<char>>,
    folded: bool,
    limit: int,
) -> Seq<char> {
    if folded {
        "\n\t\t\t<td class=\"test-cell "@ + class + " folded\">\n\t\t\t</td>\n\t\t"@
    } else {
        let tl = Data::spec_truncate_lines(data_html, limit);
        "\n\t\t<td style=\"height: "@ + spec_height_em(tl.1)
            + "em; line-height: 1.1em;\" class=\"test-cell "@ + class
            + "\">\n\t\t\t<div class=\"test-actions\">\n\t\t\t\t"@ + actions_html(actions)
            + "\n\t\t\t</div>\n\t\t\t<div class=\"test-data\">\n\t\t\t\t"@ + tl.0
            + "\n\t\t\t</div>\n\t\t\t"@ + note_html(note) + "\n\t\t</td>\n\t"@
    }
}

/// Render one table cell: its style class, its action buttons, its datum —
/// cut to `limit` display lines — and its note; a folded cell collapses to
/// an empty placeholder.
pub fn render_cell(
    class: &str,
    actions: &[Action],
    data: Data,
    note: Option<&str>,
    folded: bool,
    limit: usize,
) -> (r: String)
    ensures
        r@ == spec_render_cell(
            class@,
            actions@,
            data.html@,
            match note {
                Some(n) => Some(n@),
                None => None,
            },
            folded,
            limit as int,
        ),
{
    if folded {
        let mut s = String::from_str("\n\t\t\t<td class=\"test-cell ");
        s.append(class);
        s.append(" folded\">\n\t\t\t</td>\n\t\t");
        return s;
    }
    let note_div: String = match note {
        Some(n) => {
            let mut d = String::from_str("<div class=\"test-note\">");
            d.append(n);
            d.append("</div>");
            d
        },
        None => String::new(),
    };
    let mut action_list = String::new();
    let m = actions.len();
    let mut k: usize = 0;
    while k < m
        invariant
            m == actions@.len(),
            0 <= k <= m,
            action_list@ == actions_html(actions@.take(k as int)),
        decreases m - k,
    {
        action_list.append("<div class=\"test-action material-icons\" onclick=\"");
        action_list.append(actions[k].onclick);
        action_list.append("\" title=\"");
        action_list.append(actions[k].hint);
        action_list.append("\">");
        action_list.append(actions[k].icon);
        action_list.append("</div>");
        proof {
            lemma_actions_html_snoc(actions@.take(k as int), actions@[k as int]);
            assert(actions@.take(k as int).push(actions@[k as int]) =~= actions@.take(k + 1));
        }
        k += 1;
    }
    proof {
        assert(actions@.take(m as int) =~= actions@);
    }
    let tl = data.truncate_lines(limit);
    let text = tl.0;
    let lines = tl.1;
    let tenths: u128 = (lines as u128) * 11;
    let whole = u128_to_decimal(tenths / 10);
    let frac = u128_to_decimal(tenths % 10);
    let mut s = String::from_str("\n\t\t<td style=\"height: ");
    s.append(whole.as_str());
    s.append(".");
    proof {
        reveal_strlit(".");
        assert("."@ =~= seq!['.']);
    }
    s.append(frac.as_str());
    s.append("em; line-height: 1.1em;\" class=\"test-cell ");
    s.append(class);
    s.append("\">\n\t\t\t<div class=\"test-actions\">\n\t\t\t\t");
    s.append(action_list.as_str());
    s.append("\n\t\t\t</div>\n\t\t\t<div class=\"test-data\">\n\t\t\t\t");
    s.append(text.as_str());
    s.append("\n\t\t\t</div>\n\t\t\t");
    s.append(note_div.as_str());
    s.append("\n\t\t</td>\n\t");
    s
}

/// The judgement of one test run.
pub enum Verdict {
    /// The output was accepted, through the main answer or an alternative.
    Accepted {
        /// Whether an alternative correct output matched, not the main one.
        alternative: bool,
    },
    /// The output did not match.
    WrongAnswer,
    /// The program failed at runtime.
    RuntimeError,
    /// The program ran too long.
    TimeLimitExceeded,
    /// The run was ignored for want of a desired-output file.
    IgnoredNoOut,
}

/// What one finished run produced.
pub struct Outcome {
    /// The verdict of the run.
    pub verdict: Verdict,
    /// What the program wrote to its output stream.
    pub out: String,
    /// What the program wrote to its error stream.
    pub stderr: String,
}

/// One test run, with the texts its rendering shows.
pub struct TestRun {
    /// The path of the input file, shown as the row's data attribute.
    pub in_path: String,
    /// The contents of the input file.
    pub in_text: String,
    /// The run's outcome.
    pub outcome: Outcome,
    /// The contents of the desired-output file, where that file exists.
    pub desired: Option<String>,
}

impl TestRun {
    /// Whether this run counts as successful: its output was accepted.
    pub open spec fn spec_success(self) -> bool {
        self.outcome.verdict is Accepted
    }

    /// Whether this run counts as successful.
    pub fn success(&self) -> (r: bool)
        ensures
            r == self.spec_success(),
    {
        matches!(self.outcome.verdict, Verdict::Accepted { .. })
    }
}

/// The copy and edit buttons of an input or desired-output cell.
pub open spec fn copy_edit_actions() -> Seq<Action> {
    seq![
        (Action { onclick: "trigger_copy()", icon: "file_copy", hint: "Copy contents" }),
        (Action { onclick: "trigger_edit()", icon: "edit", hint: "Edit" }),
    ]
}

/// What [`render_in_cell`] emits: a plain cell showing the input text.
pub open spec fn spec_render_in_cell(t: TestRun, folded: bool, limit: int) -> Seq<char> {
    spec_render_cell(""@, copy_edit_actions(), Data::spec_raw(t.in_text@), None, folded, limit)
}

/// Render the input cell of one run.
pub fn render_in_cell(test: &TestRun, folded: bool, limit: usize) -> (r: String)
    ensures
        r@ == spec_render_in_cell(*test, folded, limit as int),
{
    let mut actions: Vec<Action> = Vec::new();
    actions.push(action_copy());
    actions.push(action_edit());
    let r = render_cell("", actions.as_slice(), Data::raw(test.in_text.as_str()), None, folded, limit);
    proof {
        lemma_actions_html_congruent(actions@, copy_edit_actions());
    }
    r
}

/// The style class of the output cell under each verdict.
pub open spec fn outcome_class(v: Verdict) -> Seq<char> {
    match v {
        Verdict::Accepted { alternative: false } => "test-good"@,
        Verdict::Accepted { alternative: true } => "test-alt"@,
        Verdict::WrongAnswer => "test-bad"@,
        Verdict::RuntimeError => "test-bad"@,
        Verdict::TimeLimitExceeded => "test-bad"@,
        Verdict::IgnoredNoOut => "test-warn"@,
    }
}

/// Which buttons an output cell shows for a given judgement.
pub open spec fn out_actions(v: Verdict) -> Seq<Action> {
    seq![(Action { onclick: "trigger_copy()", icon: "file_copy", hint: "Copy contents" })] + (
    match v {
        Verdict::Accepted { alternative: true } => seq![
            (Action {
                onclick: "trigger_del_alt()",
                icon: "close",
                hint: "Stop accepting this output",
            }),
        ],
        Verdict::WrongAnswer => seq![
            (Action {
                onclick: "trigger_set_alt()",
                icon: "check",
                hint: "Set as an alternative correct output",
            }),
        ],
        _ => Seq::empty(),
    }) + seq![
        (Action { onclick: "trigger_gdb()", icon: "skip_previous", hint: "Debug in GDB" }),
        (Action { onclick: "trigger_rr()", icon: "fast_rewind", hint: "Debug in RR" }),
    ]
}

/// The note of the output cell under each verdict.
pub open spec fn out_note(v: Verdict) -> Option<Seq<char>> {
    match v {
        Verdict::Accepted { .. } => None,
        Verdict::WrongAnswer => None,
        Verdict::RuntimeError => Some("Runtime Error"@),
        Verdict::TimeLimitExceeded => Some("Time Limit Exceeded"@),
        Verdict::IgnoredNoOut => Some("Ignored"@),
    }
}

/// What [`render_out_cell`] emits: the output and error streams, classed
/// and annotated by the verdict.
pub open spec fn spec_render_out_cell(t: TestRun, folded: bool, limit: int) -> Seq<char> {
    spec_render_cell(
        outcome_class(t.outcome.verdict),
        out_actions(t.outcome.verdict),
        Data::spec_stdout_stderr(t.outcome.out@, t.outcome.stderr@),
        out_note(t.outcome.verdict),
        folded,
        limit,
    )
}

/// Render the output cell of one run.
pub fn render_out_cell(test: &TestRun, folded: bool, limit: usize) -> (r: String)
    ensures
        r@ == spec_render_out_cell(*test, folded, limit as int),
{
    let outcome_class: &str = match test.outcome.verdict {
        Verdict::Accepted { alternative: false } => "test-good",
        Verdict::Accepted { alternative: true } => "test-alt",
        Verdict::WrongAnswer => "test-bad",
        Verdict::RuntimeError => "test-bad",
        Verdict::TimeLimitExceeded => "test-bad",
        Verdict::IgnoredNoOut => "test-warn",
    };
    let mut actions: Vec<Action> = Vec::new();
    actions.push(action_copy());
    match test.outcome.verdict {
        Verdict::Accepted { alternative: true } => actions.push(action_del_alt()),
        Verdict::WrongAnswer => actions.push(action_set_alt()),
        _ => (),
    }
    actions.push(action_gdb());
    actions.push(action_rr());
    let note: Option<&str> = match test.outcome.verdict {
        Verdict::Accepted { .. } => None,
        Verdict::WrongAnswer => None,
        Verdict::RuntimeError => Some("Runtime Error"),
        Verdict::TimeLimitExceeded => Some("Time Limit Exceeded"),
        Verdict::IgnoredNoOut => Some("Ignored"),
    };
    let data = Data::stdout_stderr(test.outcome.out.as_str(), test.outcome.stderr.as_str());
    let r = render_cell(outcome_class, actions.as_slice(), data, note, folded, limit);
    proof {
        lemma_actions_html_congruent(actions@, out_actions(test.outcome.verdict));
    }
    r
}

/// What [`render_desired_cell`] emits: the desired output where its file
/// exists, an editable placeholder cell where it does not.
pub open spec fn spec_render_desired_cell(t: TestRun, folded: bool, limit: int) -> Seq<char> {
    match t.desired {
        Some(d) => spec_render_cell(
            "test-desired"@,
            copy_edit_actions(),
            Data::spec_raw(d@),
            None,
            folded,
            limit,
        ),
        None => spec_render_cell(
            "test-desired"@,
            seq![(Action { onclick: "trigger_edit()", icon: "edit", hint: "Edit" })],
            Data::spec_raw(""@),
            Some("File does not exist"@),
            folded,
            limit,
        ),
    }
}

/// Render the desired-output cell of one run.
pub fn render_desired_cell(test: &TestRun, folded: bool, limit: usize) -> (r: String)
    ensures
        r@ == spec_render_desired_cell(*test, folded, limit as int),
{
    match &test.desired {
        Some(d) => {
            let mut actions: Vec<Action> = Vec::new();
            actions.push(action_copy());
            actions.push(action_edit());
            let r = render_cell(
                "test-desired",
                actions.as_slice(),
                Data::raw(d.as_str()),
                None,
                folded,
                limit,
            );
            proof {
                lemma_actions_html_congruent(actions@, copy_edit_actions());
            }
            r
        },
        None => {
            let mut actions: Vec<Action> = Vec::new();
            actions.push(action_edit());
            let r = render_cell(
                "test-desired",
                actions.as_slice(),
                Data::raw(""),
                Some("File does not exist"),
                folded,
                limit,
            );
            proof {
                lemma_actions_html_congruent(
                    actions@,
                    seq![(Action { onclick: "trigger_edit()", icon: "edit", hint: "Edit" })],
                );
            }
            r
        },
    }
}

/// What [`render_test`] emits: nothing for an accepted run the hiding rule
/// suppresses; otherwise one table row of the three cells, folded when the
/// folding rule says so.
pub open spec fn spec_render_test(
    t: TestRun,
    any_failed: bool,
    fold_ac: HideBehaviour,
    hide_ac: HideBehaviour,
    limit: int,
) -> Seq<char> {
    if t.spec_success() && hide_ac.spec_should(any_failed) {
        Seq::empty()
    } else {
        let folded = t.spec_success() && fold_ac.spec_should(any_failed);
        "\n\t\t<tr class=\"test-row "@ + (if !t.spec_success() {
            "test-row-failed"@
        } else {
            ""@
        }) + "\" data-in_path=\""@ + t.in_path@ + "\" data-out_raw=\""@ + spec_translate(
            t.outcome.out@,
            attr_escape_table(),
        ) + "\">\n\t\t\t"@ + spec_render_in_cell(t, folded, limit) + "\n\t\t\t"@
            + spec_render_out_cell(t, folded, limit) + "\n\t\t\t"@ + spec_render_desired_cell(
            t,
            folded,
            limit,
        ) + "\n\t\t</tr>\n\t"@
    }
}

/// Render one run's table row, or nothing where the hiding rule suppresses
/// an accepted run.
pub fn render_test(
    test: &TestRun,
    any_failed: bool,
    fold_ac: HideBehaviour,
    hide_ac: HideBehaviour,
    limit: usize,
) -> (r: String)
    ensures
        r@ == spec_render_test(*test, any_failed, fold_ac, hide_ac, limit as int),
{
    if test.success() && hide_ac.should(any_failed) {
        return String::new();
    }
    let folded = test.success() && fold_ac.should(any_failed);
    let mut s = String::from_str("\n\t\t<tr class=\"test-row ");
    if !test.success() {
        s.append("test-row-failed");
    } else {
        s.append("");
    }
    s.append("\" data-in_path=\"");
    s.append(test.in_path.as_str());
    s.append("\" data-out_raw=\"");
    let out_raw = html_attr_escape(test.outcome.out.as_str());
    s.append(out_raw.as_str());
    s.append("\">\n\t\t\t");
    let input = render_in_cell(test, folded, limit);
    s.append(input.as_str());
    s.append("\n\t\t\t");
    let out = render_out_cell(test, folded, limit);
    s.append(out.as_str());
    s.append("\n\t\t\t");
    let desired = render_desired_cell(test, folded, limit);
    s.append(desired.as_str());
    s.append("\n\t\t</tr>\n\t");
    s
}

/// Whether any run of the view failed.
pub open spec fn spec_any_failed(tests: Seq<TestRun>) -> bool {
    exists|i: int| 0 <= i < tests.len() && !(#[trigger] tests[i]).spec_success()
}

/// The concatenated rows of the runs, under a fixed failure flag.
pub open spec fn tests_html(
    tests: Seq<TestRun>,
    any_failed: bool,
    fold_ac: HideBehaviour,
    hide_ac: HideBehaviour,
    limit: int,
) -> Seq<char>
    decreases tests.len(),
{
    if tests.len() == 0 {
        Seq::empty()
    } else {
        spec_render_test(tests[0], any_failed, fold_ac, hide_ac, limit) + tests_html(
            tests.drop_first(),
            any_failed,
            fold_ac,
            hide_ac,
            limit,
        )
    }
}

/// The table body renders run by run.
proof fn lemma_tests_html_snoc(
    tests: Seq<TestRun>,
    t: TestRun,
    any_failed: bool,
    fold_ac: HideBehaviour,
    hide_ac: HideBehaviour,
    limit: int,
)
    ensures
        tests_html(tests.push(t), any_failed, fold_ac, hide_ac, limit) == tests_html(
            tests,
            any_failed,
            fold_ac,
            hide_ac,
            limit,
        ) + spec_render_test(t, any_failed, fold_ac, hide_ac, limit),
    decreases tests.len(),
{
    let row = spec_render_test(t, any_failed, fold_ac, hide_ac, limit);
    if tests.len() == 0 {
        assert(tests.push(t)[0] == t);
        assert(tests.push(t).drop_first() =~= Seq::<TestRun>::empty());
        assert(tests_html(Seq::<TestRun>::empty(), any_failed, fold_ac, hide_ac, limit)
            == Seq::<char>::empty());
        assert(row + Seq::<char>::empty() =~= row);
        assert(Seq::<char>::empty() + row =~= row);
    } else {
        assert(tests.push(t)[0] == tests[0]);
        assert(tests.push(t).drop_first() =~= tests.drop_first().push(t));
        lemma_tests_html_snoc(tests.drop_first(), t, any_failed, fold_ac, hide_ac, limit);
        let head = spec_render_test(tests[0], any_failed, fold_ac, hide_ac, limit);
        let mid = tests_html(tests.drop_first(), any_failed, fold_ac, hide_ac, limit);
        assert(head + (mid + row) =~= (head + mid) + row);
    }
}

/// What [`render_test_table`] emits.
pub open spec fn spec_render_test_table(
    tests: Seq<TestRun>,
    fold_ac: HideBehaviour,
    hide_ac: HideBehaviour,
    limit: int,
) -> Seq<char> {
    tests_html(tests, spec_any_failed(tests), fold_ac, hide_ac, limit)
}

/// Render the rows of all runs: a run's row is hidden or folded only while
/// the configured rules say so, given whether any run failed.
pub fn render_test_table(
    tests: &[TestRun],
    fold_ac: HideBehaviour,
    hide_ac: HideBehaviour,
    limit: usize,
) -> (r: String)
    ensures
        r@ == spec_render_test_table(tests@, fold_ac, hide_ac, limit as int),
{
    let n = tests.len();
    let mut any_failed = false;
    let mut i: usize = 0;
    while i < n
        invariant
            n == tests@.len(),
            0 <= i <= n,
            any_failed == spec_any_failed(tests@.take(i as int)),
        decreases n - i,
    {
        if !tests[i].success() {
            any_failed = true;
        }
        proof {
            assert(tests@.take(i + 1).drop_last() =~= tests@.take(i as int));
            assert(tests@.take(i + 1)[i as int] == tests@[i as int]);
            if any_failed {
                if !tests@[i as int].spec_success() {
                    assert(!tests@.take(i + 1)[i as int].spec_success());
                } else {
                    let w = choose|k: int|
                        0 <= k < i && !(#[trigger] tests@.take(i as int)[k]).spec_success();
                    assert(!tests@.take(i + 1)[w].spec_success());
                }
            } else {
                assert(forall|k: int|
                    0 <= k < i + 1 ==> (#[trigger] tests@.take(i + 1)[k]).spec_success());
            }
        }
        i += 1;
    }
    proof {
        assert(tests@.take(n as int) =~= tests@);
    }
    let mut html = String::new();
    let mut k: usize = 0;
    while k < n
        invariant
            n == tests@.len(),
            0 <= k <= n,
            any_failed == spec_any_failed(tests@),
            html@ == tests_html(tests@.take(k as int), any_failed, fold_ac, hide_ac, limit as int),
        decreases n - k,
    {
        let row = render_test(&tests[k], any_failed, fold_ac, hide_ac, limit);
        html.append(row.as_str());
        proof {
            lemma_tests_html_snoc(
                tests@.take(k as int),
                tests@[k as int],
                any_failed,
                fold_ac,
                hide_ac,
                limit as int,
            );
            assert(tests@.take(k as int).push(tests@[k as int]) =~= tests@.take(k + 1));
        }
        k += 1;
    }
    proof {
        assert(tests@.take(n as int) =~= tests@);
    }
    html
}

/// What [`render`] emits: the whole test-view page around the table body.
pub open spec fn spec_render(
    tests: Seq<TestRun>,
    css: Seq<char>,
    material_icons: Seq<char>,
    js: Seq<char>,
    fold_ac: HideBehaviour,
    hide_ac: HideBehaviour,
    limit: int,
) -> Seq<char> {
    "\n\t\t<html>\n\t\t\t<head>\n\t\t\t\t<style>"@ + css + "</style>\n\t\t\t\t"@ + material_icons
        + "\n\t\t\t\t<script>"@ + js
        + "</script>\n\t\t\t</head>\n\t\t\t<body>\n\t\t\t\t<table class=\"test-table\">\n\t\t\t\t\t"@
        + spec_render_test_table(tests, fold_ac, hide_ac, limit)
        + "\n\t\t\t\t</table>\n\t\t\t\t<br/>\n\t\t\t\t<div id=\"new-container\" class=\"new\">\n\t\t\t\t\t<textarea id=\"new-input\" class=\"new\"></textarea>\n\t\t\t\t\t<textarea id=\"new-desired\" class=\"new\"></textarea>\n\t\t\t\t\t<div id=\"new-start\" class=\"material-icons button new\" onclick=\"new_start()\">add</div>\n\t\t\t\t\t<div id=\"new-confirm\" class=\"material-icons button new\" onclick=\"new_confirm()\">done</div>\n\t\t\t\t</div>\n\t\t\t</body>\n\t\t</html>\n\t"@
}

/// Render the whole test-view page: the style sheet, the icon links and the
/// script handed in by the caller, around the table of the runs.
pub fn render(
    tests: &[TestRun],
    css: &str,
    material_icons: &str,
    js: &str,
    fold_ac: HideBehaviour,
    hide_ac: HideBehaviour,
    limit: usize,
) -> (r: String)
    ensures
        r@ == spec_render(tests@, css@, material_icons@, js@, fold_ac, hide_ac, limit as int),
{
    let mut s = String::from_str("\n\t\t<html>\n\t\t\t<head>\n\t\t\t\t<style>");
    s.append(css);
    s.append("</style>\n\t\t\t\t");
    s.append(material_icons);
    s.append("\n\t\t\t\t<script>");
    s.append(js);
    s.append("</script>\n\t\t\t</head>\n\t\t\t<body>\n\t\t\t\t<table class=\"test-table\">\n\t\t\t\t\t");
    let table = render_test_table(tests, fold_ac, hide_ac, limit);
    s.append(table.as_str());
    s.append(
        "\n\t\t\t\t</table>\n\t\t\t\t<br/>\n\t\t\t\t<div id=\"new-container\" class=\"new\">\n\t\t\t\t\t<textarea id=\"new-input\" class=\"new\"></textarea>\n\t\t\t\t\t<textarea id=\"new-desired\" class=\"new\"></textarea>\n\t\t\t\t\t<div id=\"new-start\" class=\"material-icons button new\" onclick=\"new_start()\">add</div>\n\t\t\t\t\t<div id=\"new-confirm\" class=\"material-icons button new\" onclick=\"new_confirm()\">done</div>\n\t\t\t\t</div>\n\t\t\t</body>\n\t\t</html>\n\t",
    );
    s
}

} // verus!
