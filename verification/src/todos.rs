//! To-do items and their persistence format: one `flag<TAB>text` line per item.

use vstd::prelude::*;

use crate::clock::now;
use crate::text::{
    chars_of, find_char, is_renderable, lemma_prefix_without_at, lemma_sanitize_all_renderable,
    lemma_trim, lemma_trim_unchanged, prefix_without, sanitize, sanitize_all, trim, trim_range,
};

verus! {

/// One entry of the list.
pub struct Todo {
    pub text: String,
    pub done: bool,
}

impl View for Todo {
    type V = (Seq<char>, bool);

    open spec fn view(&self) -> (Seq<char>, bool) {
        (self.text@, self.done)
    }
}

/// The items of a list, each taken by its view.
pub open spec fn items_view(v: Seq<Todo>) -> Seq<(Seq<char>, bool)> {
    v.map_values(|t: Todo| t@)
}

/// What one line of the save file holds, if it holds an item: the line needs a tab; the
/// flag before the first tab, trimmed, is `1` for a done item; the text after it is
/// sanitized character by character and trimmed, and must not end up empty.
pub open spec fn spec_parse_save_line(line: Seq<char>) -> Option<(Seq<char>, bool)> {
    let k = prefix_without(line, '\t') as int;
    if k >= line.len() {
        None
    } else {
        let text = trim(sanitize_all(line.subrange(k + 1, line.len() as int)));
        if text.len() == 0 {
            None
        } else {
            Some((text, trim(line.subrange(0, k)) == seq!['1']))
        }
    }
}

/// The line that stores an item: `1` or `0`, a tab, then the text.
pub open spec fn spec_encode_save_line(item: (Seq<char>, bool)) -> Seq<char> {
    seq![if item.1 { '1' } else { '0' }, '\t'] + item.0
}

/// The lines of a text as `str::lines` gives them: split at each `\n`, a `\r` just before
/// the `\n` dropped, and no empty line after a final `\n`.
pub open spec fn split_lines(s: Seq<char>) -> Seq<Seq<char>>
    decreases s.len(),
{
    if s.len() == 0 {
        seq![]
    } else {
        let k = prefix_without(s, '\n') as int;
        if k >= s.len() {
            seq![s]
        } else {
            seq![strip_cr(s.subrange(0, k))] + split_lines(s.subrange(k + 1, s.len() as int))
        }
    }
}

/// A line with one carriage return at its end removed.
pub open spec fn strip_cr(l: Seq<char>) -> Seq<char> {
    if l.len() > 0 && l.last() == '\r' {
        l.drop_last()
    } else {
        l
    }
}

/// The items that a sequence of lines holds, in order; lines that hold none are skipped.
pub open spec fn parse_lines(ls: Seq<Seq<char>>) -> Seq<(Seq<char>, bool)>
    decreases ls.len(),
{
    if ls.len() == 0 {
        seq![]
    } else {
        match spec_parse_save_line(ls[0]) {
            Some(t) => seq![t] + parse_lines(ls.drop_first()),
            None => parse_lines(ls.drop_first()),
        }
    }
}

/// The items that the contents of a save file hold.
pub open spec fn spec_parse_save_file(data: Seq<char>) -> Seq<(Seq<char>, bool)> {
    parse_lines(split_lines(data))
}

/// The contents of the save file for a list: each item's line followed by `\n`.
pub open spec fn spec_encode_save_file(items: Seq<(Seq<char>, bool)>) -> Seq<char>
    decreases items.len(),
{
    if items.len() == 0 {
        seq![]
    } else {
        spec_encode_save_line(items[0]) + seq!['\n'] + spec_encode_save_file(items.drop_first())
    }
}

/// A text as the list stores it: not empty, drawable throughout, no space at either end.
pub open spec fn is_clean_text(t: Seq<char>) -> bool {
    &&& t.len() > 0
    &&& forall|i: int| 0 <= i < t.len() ==> is_renderable(#[trigger] t[i])
    &&& t[0] != ' '
    &&& t.last() != ' '
}

/// Every item of the list has a clean text.
pub open spec fn all_clean(items: Seq<(Seq<char>, bool)>) -> bool {
    forall|i: int| 0 <= i < items.len() ==> is_clean_text(#[trigger] items[i].0)
}

fn string_from_range(v: &Vec<char>, lo: usize, hi: usize) -> (s: String)
    requires
        lo <= hi <= v.len(),
    ensures
        s@ == v@.subrange(lo as int, hi as int),
{
    let mut s = String::new();
    let mut i = lo;
    while i < hi
        invariant
            lo <= i <= hi <= v.len(),
            s@ == v@.subrange(lo as int, i as int),
        decreases hi - i,
    {
        s.push(v[i]);
        assert(v@.subrange(lo as int, i + 1) =~= v@.subrange(lo as int, i as int).push(v@[i as int]));
        i = i + 1;
    }
    s
}

/// Parses the line `v[lo..hi]`.
fn parse_line_range(v: &Vec<char>, lo: usize, hi: usize) -> (r: Option<Todo>)
    requires
        lo <= hi <= v.len(),
    ensures
        match r {
            Some(t) => spec_parse_save_line(v@.subrange(lo as int, hi as int)) == Some(t@),
            None => spec_parse_save_line(v@.subrange(lo as int, hi as int)) is None,
        },
{
    let ghost line = v@.subrange(lo as int, hi as int);
    let tab = find_char(v, lo, hi, '\t');
    proof {
        lemma_prefix_without_at(line, '\t', (tab - lo) as int);
    }
    if tab == hi {
        return None;
    }
    let mut clean: Vec<char> = Vec::new();
    let mut i = tab + 1;
    while i < hi
        invariant
            tab < hi <= v.len(),
            tab + 1 <= i <= hi,
            clean@ == sanitize_all(v@.subrange(tab + 1, i as int)),
        decreases hi - i,
    {
        assert(v@.subrange(tab + 1, i + 1).drop_last() =~= v@.subrange(tab + 1, i as int));
        match sanitize(v[i]) {
            Some(c) => clean.push(c),
            None => {},
        }
        i = i + 1;
    }
    assert(line.subrange((tab - lo) + 1, line.len() as int) =~= v@.subrange(tab + 1, hi as int));
    assert(line.subrange(0, (tab - lo) as int) =~= v@.subrange(lo as int, tab as int));
    let (a, b) = trim_range(&clean, 0, clean.len());
    assert(clean@.subrange(0, clean@.len() as int) =~= clean@);
    if a == b {
        return None;
    }
    let text = string_from_range(&clean, a, b);
    let (fa, fb) = trim_range(v, lo, tab);
    let done = fb == fa + 1 && v[fa] == '1';
    proof {
        let f = v@.subrange(fa as int, fb as int);
        if done {
            assert(f =~= seq!['1']);
        } else {
            assert(f.len() != 1 || f[0] != '1');
        }
    }
    Some(Todo { text, done })
}

/// Reads one line of the save file.
pub fn parse_save_line(line: &str) -> (r: Option<Todo>)
    ensures
        match r {
            Some(t) => spec_parse_save_line(line@) == Some(t@),
            None => spec_parse_save_line(line@) is None,
        },
{
    let v = chars_of(line);
    assert(v@.subrange(0, v@.len() as int) =~= v@);
    parse_line_range(&v, 0, v.len())
}

/// The line that stores `todo`, without its line end.
pub fn encode_save_line(todo: &Todo) -> (s: String)
    ensures
        s@ == spec_encode_save_line(todo@),
{
    let mut s = String::new();
    s.push(if todo.done { '1' } else { '0' });
    s.push('\t');
    let t = chars_of(todo.text.as_str());
    let mut i: usize = 0;
    while i < t.len()
        invariant
            0 <= i <= t.len(),
            t@ == todo.text@,
            s@ == seq![if todo.done { '1' } else { '0' }, '\t'] + t@.subrange(0, i as int),
        decreases t.len() - i,
    {
        s.push(t[i]);
        assert(t@.subrange(0, i + 1) =~= t@.subrange(0, i as int).push(t@[i as int]));
        assert(seq![if todo.done { '1' } else { '0' }, '\t'] + t@.subrange(0, i + 1)
            =~= (seq![if todo.done { '1' } else { '0' }, '\t'] + t@.subrange(0, i as int)).push(t@[i as int]));
        i = i + 1;
    }
    assert(t@.subrange(0, t@.len() as int) =~= t@);
    s
}

/// `parse_lines` of a line put in front of others.
proof fn lemma_parse_lines_cons(l: Seq<char>, rest: Seq<Seq<char>>)
    ensures
        parse_lines(seq![l] + rest) == match spec_parse_save_line(l) {
            Some(t) => seq![t] + parse_lines(rest),
            None => parse_lines(rest),
        },
{
    assert((seq![l] + rest).drop_first() =~= rest);
    assert((seq![l] + rest)[0] == l);
}

/// Reads a whole save file: one item for each line that holds one, in order.
pub fn parse_save_file(data: &str) -> (items: Vec<Todo>)
    ensures
        items_view(items@) == spec_parse_save_file(data@),
{
    let v = chars_of(data);
    let n = v.len();
    let mut out: Vec<Todo> = Vec::new();
    let mut i: usize = 0;
    assert(v@.subrange(0, n as int) =~= v@);
    while i < n
        invariant
            0 <= i <= n == v.len(),
            items_view(out@) + parse_lines(split_lines(v@.subrange(i as int, n as int)))
                == parse_lines(split_lines(v@)),
        decreases n - i,
    {
        let ghost s = v@.subrange(i as int, n as int);
        let ghost before = items_view(out@);
        let j = find_char(&v, i, n, '\n');
        proof {
            lemma_prefix_without_at(s, '\n', (j - i) as int);
        }
        let end = if j < n && j > i && v[j - 1] == '\r' {
            j - 1
        } else {
            j
        };
        let t = parse_line_range(&v, i, end);
        let ghost parsed = spec_parse_save_line(v@.subrange(i as int, end as int));
        match t {
            Some(t) => {
                out.push(t);
                assert(items_view(out@) =~= before.push(parsed.unwrap()));
            },
            None => {},
        }
        if j < n {
            proof {
                assert(s.subrange(0, (j - i) as int) =~= v@.subrange(i as int, j as int));
                assert(strip_cr(v@.subrange(i as int, j as int)) =~= v@.subrange(i as int, end as int));
                assert(s.subrange((j - i) + 1, s.len() as int) =~= v@.subrange(j + 1, n as int));
                let rest = split_lines(v@.subrange(j + 1, n as int));
                assert(split_lines(s) == seq![v@.subrange(i as int, end as int)] + rest);
                lemma_parse_lines_cons(v@.subrange(i as int, end as int), rest);
                match parsed {
                    Some(x) => {
                        assert(before + (seq![x] + parse_lines(rest)) =~= before.push(x) + parse_lines(rest));
                    },
                    None => {},
                }
            }
            i = j + 1;
        } else {
            proof {
                assert(split_lines(s) == seq![s]);
                assert(v@.subrange(n as int, n as int) =~= Seq::<char>::empty());
                assert(split_lines(Seq::<char>::empty()) == Seq::<Seq<char>>::empty());
                lemma_parse_lines_cons(s, Seq::<Seq<char>>::empty());
                assert(seq![s] + Seq::<Seq<char>>::empty() =~= seq![s]);
                match parsed {
                    Some(x) => {
                        assert(before + (seq![x] + Seq::<(Seq<char>, bool)>::empty()) =~= before.push(x) + Seq::<(Seq<char>, bool)>::empty());
                    },
                    None => {
                        assert(before + Seq::<(Seq<char>, bool)>::empty() =~= before);
                    },
                }
            }
            i = n;
        }
    }
    assert(v@.subrange(n as int, n as int) =~= Seq::<char>::empty());
    assert(items_view(out@) + Seq::<(Seq<char>, bool)>::empty() =~= items_view(out@));
    out
}

/// Writes a whole save file: each item's line followed by `\n`.
pub fn encode_save_file(items: &Vec<Todo>) -> (data: String)
    ensures
        data@ == spec_encode_save_file(items_view(items@)),
{
    let ghost all = items_view(items@);
    let n = items.len();
    let mut s = String::new();
    let mut i: usize = 0;
    assert(all.subrange(0, n as int) =~= all);
    while i < n
        invariant
            0 <= i <= n == items.len(),
            all == items_view(items@),
            s@ + spec_encode_save_file(all.subrange(i as int, n as int)) == spec_encode_save_file(all),
        decreases n - i,
    {
        let line = encode_save_line(&items[i]);
        let ghost prev = s@;
        let ghost sub = all.subrange(i as int, n as int);
        assert(sub.drop_first() =~= all.subrange(i + 1, n as int));
        assert(sub[0] == items@[i as int]@);
        let lc = chars_of(line.as_str());
        let mut k: usize = 0;
        while k < lc.len()
            invariant
                0 <= k <= lc.len(),
                lc@ == line@,
                s@ == prev + lc@.subrange(0, k as int),
            decreases lc.len() - k,
        {
            s.push(lc[k]);
            assert(lc@.subrange(0, k + 1) =~= lc@.subrange(0, k as int).push(lc@[k as int]));
            assert(prev + lc@.subrange(0, k + 1) =~= (prev + lc@.subrange(0, k as int)).push(lc@[k as int]));
            k = k + 1;
        }
        s.push('\n');
        assert(lc@.subrange(0, lc@.len() as int) =~= lc@);
        assert(prev + spec_encode_save_file(sub) =~= s@ + spec_encode_save_file(all.subrange(i + 1, n as int)));
        i = i + 1;
    }
    assert(all.subrange(n as int, n as int) =~= Seq::<(Seq<char>, bool)>::empty());
    assert(s@ + Seq::<char>::empty() =~= s@);
    s
}

/// A line that stores an item with a clean text reads back as that item.
pub proof fn lemma_line_roundtrip(item: (Seq<char>, bool))
    requires
        is_clean_text(item.0),
    ensures
        spec_parse_save_line(spec_encode_save_line(item)) == Some(item),
{
    let l = spec_encode_save_line(item);
    let t = item.0;
    lemma_prefix_without_at(l, '\t', 1);
    assert(l.subrange(2, l.len() as int) =~= t);
    lemma_sanitize_all_renderable(t);
    assert(is_renderable(t[0]));
    assert(is_renderable(t[t.len() - 1]));
    lemma_trim_unchanged(t);
    let flag = l.subrange(0, 1);
    assert(flag =~= seq![if item.1 { '1' } else { '0' }]);
    lemma_trim_unchanged(flag);
    if !item.1 {
        assert(flag[0] != seq!['1'][0]);
    }
}

/// The central law of the save format: writing a list of clean items and reading the
/// file back gives the same items, in the same order.
pub proof fn lemma_save_load_roundtrip(items: Seq<(Seq<char>, bool)>)
    requires
        all_clean(items),
    ensures
        spec_parse_save_file(spec_encode_save_file(items)) == items,
    decreases items.len(),
{
    if items.len() > 0 {
        let l = spec_encode_save_line(items[0]);
        let rest = items.drop_first();
        let r = spec_encode_save_file(rest);
        let e = spec_encode_save_file(items);
        assert(is_clean_text(items[0].0));
        assert(e == l + seq!['\n'] + r);
        assert forall|j: int| 0 <= j < l.len() implies e[j] != '\n' by {
            if j >= 2 {
                assert(l[j] == items[0].0[j - 2]);
                assert(is_renderable(items[0].0[j - 2]));
            }
        }
        lemma_prefix_without_at(e, '\n', l.len() as int);
        assert(e.subrange(0, l.len() as int) =~= l);
        assert(l.last() == items[0].0.last());
        assert(is_renderable(items[0].0[items[0].0.len() - 1]));
        assert(strip_cr(l) == l);
        assert(e.subrange(l.len() as int + 1, e.len() as int) =~= r);
        assert(split_lines(e) == seq![l] + split_lines(r));
        lemma_parse_lines_cons(l, split_lines(r));
        lemma_line_roundtrip(items[0]);
        assert forall|j: int| 0 <= j < rest.len() implies is_clean_text(#[trigger] rest[j].0) by {
            assert(rest[j] == items[j + 1]);
        }
        lemma_save_load_roundtrip(rest);
        assert(seq![items[0]] + rest =~= items);
    }
}

/// Every item that a line yields has a clean text.
pub proof fn lemma_parsed_line_clean(line: Seq<char>)
    ensures
        spec_parse_save_line(line) matches Some(t) ==> is_clean_text(t.0),
{
    let k = prefix_without(line, '\t') as int;
    if k < line.len() {
        let raw = sanitize_all(line.subrange(k + 1, line.len() as int));
        lemma_sanitize_all_renderable(line.subrange(k + 1, line.len() as int));
        lemma_trim(raw);
        let t = trim(raw);
        if t.len() > 0 {
            assert(is_renderable(t[0]));
        }
    }
}

/// Every item read from any save file has a clean text.
pub proof fn lemma_parsed_file_clean(data: Seq<char>)
    ensures
        all_clean(spec_parse_save_file(data)),
{
    lemma_parsed_lines_clean(split_lines(data));
}

proof fn lemma_parsed_lines_clean(ls: Seq<Seq<char>>)
    ensures
        all_clean(parse_lines(ls)),
    decreases ls.len(),
{
    if ls.len() > 0 {
        lemma_parsed_lines_clean(ls.drop_first());
        lemma_parsed_line_clean(ls[0]);
        let rest = parse_lines(ls.drop_first());
        match spec_parse_save_line(ls[0]) {
            Some(t) => {
                assert forall|i: int| 0 <= i < (seq![t] + rest).len() implies is_clean_text(
                    #[trigger] (seq![t] + rest)[i].0,
                ) by {
                    if i > 0 {
                        assert((seq![t] + rest)[i] == rest[i - 1]);
                    }
                }
            },
            None => {},
        }
    }
}

/// The number of items not yet done.
pub open spec fn count_open(items: Seq<(Seq<char>, bool)>) -> nat
    decreases items.len(),
{
    if items.len() == 0 {
        0
    } else {
        count_open(items.drop_last()) + if items.last().1 { 0nat } else { 1nat }
    }
}

/// The number of items done.
pub open spec fn count_done(items: Seq<(Seq<char>, bool)>) -> nat
    decreases items.len(),
{
    if items.len() == 0 {
        0
    } else {
        count_done(items.drop_last()) + if items.last().1 { 1nat } else { 0nat }
    }
}

/// The items not yet done, in order.
pub open spec fn keep_open(items: Seq<(Seq<char>, bool)>) -> Seq<(Seq<char>, bool)>
    decreases items.len(),
{
    if items.len() == 0 {
        seq![]
    } else if items.last().1 {
        keep_open(items.drop_last())
    } else {
        keep_open(items.drop_last()).push(items.last())
    }
}

/// The longest text the input field takes, in characters.
pub const MAX_INPUT: usize = 80;

/// The input after one character is typed: it is appended while the input is shorter than
/// `MAX_INPUT`, and ignored after.
pub open spec fn spec_type_one(input: Seq<char>, c: char) -> Seq<char> {
    if input.len() < 80 {
        input.push(c)
    } else {
        input
    }
}

/// The input after the characters of `cs` are typed, one after the other.
pub open spec fn spec_type_all(input: Seq<char>, cs: Seq<char>) -> Seq<char>
    decreases cs.len(),
{
    if cs.len() == 0 {
        input
    } else {
        spec_type_all(spec_type_one(input, cs[0]), cs.drop_first())
    }
}

/// A key as the editor sees it.
pub enum KeyInput {
    Enter,
    Backspace,
    Space,
    Escape,
    /// A key that produced text.
    Text(String),
    Other,
}

/// What handling a key did.
#[derive(PartialEq, Eq, Structural, Debug, Clone, Copy)]
pub enum KeyOutcome {
    /// Nothing changed.
    Ignored,
    /// The input text changed.
    Edited,
    /// A task was added: the list is to be saved.
    Added,
    /// The user asked to quit.
    Quit,
}

/// The state of the to-do screen that is not layout: the list, the text being typed,
/// whether the input field has focus, and when its caret was last reset.
pub struct Todos {
    pub items: Vec<Todo>,
    pub input: String,
    pub focused: bool,
    pub caret_since: std::time::Instant,
}

impl Todos {
    /// The list as a sequence of `(text, done)` pairs.
    pub open spec fn items_spec(&self) -> Seq<(Seq<char>, bool)> {
        items_view(self.items@)
    }

    /// What every operation keeps: each item's text is clean, and the input holds at most
    /// `MAX_INPUT` renderable characters.
    pub open spec fn wf(&self) -> bool {
        &&& all_clean(self.items_spec())
        &&& self.input@.len() <= 80
        &&& forall|i: int| 0 <= i < self.input@.len() ==> is_renderable(#[trigger] self.input@[i])
    }

    /// A screen state holding the items that the save file `data` holds, with an empty,
    /// unfocused input.
    pub fn load_from(data: &str) -> (t: Todos)
        ensures
            t.items_spec() == spec_parse_save_file(data@),
            t.input@ == Seq::<char>::empty(),
            !t.focused,
            t.wf(),
    {
        let items = parse_save_file(data);
        proof {
            lemma_parsed_file_clean(data@);
        }
        Todos { items, input: String::new(), focused: false, caret_since: now() }
    }

    /// The contents of the save file for this list.
    pub fn save_data(&self) -> (data: String)
        ensures
            data@ == spec_encode_save_file(self.items_spec()),
    {
        encode_save_file(&self.items)
    }

    /// The number of items not yet done.
    pub fn open_count(&self) -> (n: usize)
        ensures
            n == count_open(self.items_spec()),
    {
        let mut n: usize = 0;
        let mut i: usize = 0;
        while i < self.items.len()
            invariant
                0 <= i <= self.items.len(),
                n == count_open(self.items_spec().subrange(0, i as int)),
                n <= i,
            decreases self.items.len() - i,
        {
            assert(self.items_spec().subrange(0, i + 1).drop_last() =~= self.items_spec().subrange(0, i as int));
            if !self.items[i].done {
                n = n + 1;
            }
            i = i + 1;
        }
        assert(self.items_spec().subrange(0, i as int) =~= self.items_spec());
        n
    }

    /// The number of items done.
    pub fn done_count(&self) -> (n: usize)
        ensures
            n == count_done(self.items_spec()),
    {
        let mut n: usize = 0;
        let mut i: usize = 0;
        while i < self.items.len()
            invariant
                0 <= i <= self.items.len(),
                n == count_done(self.items_spec().subrange(0, i as int)),
                n <= i,
            decreases self.items.len() - i,
        {
            assert(self.items_spec().subrange(0, i + 1).drop_last() =~= self.items_spec().subrange(0, i as int));
            if self.items[i].done {
                n = n + 1;
            }
            i = i + 1;
        }
        assert(self.items_spec().subrange(0, i as int) =~= self.items_spec());
        n
    }

    /// Whether the input, trimmed, holds anything to add.
    pub fn can_add(&self) -> (r: bool)
        ensures
            r == (trim(self.input@).len() > 0),
    {
        let v = chars_of(self.input.as_str());
        let (a, b) = trim_range(&v, 0, v.len());
        assert(v@.subrange(0, v@.len() as int) =~= v@);
        a < b
    }

    /// Adds the trimmed input as a new open item and empties the input, unless the trimmed
    /// input is empty, in which case nothing changes. Returns whether an item was added.
    pub fn add_task(&mut self) -> (added: bool)
        ensures
            added == (trim(old(self).input@).len() > 0),
            added ==> final(self).items_spec() == old(self).items_spec().push(
                (trim(old(self).input@), false),
            ),
            added ==> final(self).input@ == Seq::<char>::empty(),
            !added ==> final(self).items_spec() == old(self).items_spec(),
            !added ==> final(self).input@ == old(self).input@,
            !added ==> final(self).caret_since == old(self).caret_since,
            final(self).focused == old(self).focused,
            old(self).wf() ==> final(self).wf(),
    {
        let v = chars_of(self.input.as_str());
        let (a, b) = trim_range(&v, 0, v.len());
        assert(v@.subrange(0, v@.len() as int) =~= v@);
        if a == b {
            return false;
        }
        let text = string_from_range(&v, a, b);
        let ghost before = self.items_spec();
        proof {
            if self.wf() {
                lemma_trim(self.input@);
                assert(is_renderable(trim(self.input@)[0]));
                assert(is_renderable(trim(self.input@)[trim(self.input@).len() - 1]));
            }
        }
        self.items.push(Todo { text, done: false });
        assert(self.items_spec() =~= before.push((trim(old(self).input@), false)));
        self.input = String::new();
        self.caret_since = now();
        true
    }

    /// Types one character: it is appended while the input is shorter than `MAX_INPUT`.
    /// Returns whether it was.
    pub fn type_char(&mut self, c: char) -> (typed: bool)
        ensures
            final(self).input@ == spec_type_one(old(self).input@, c),
            typed == (old(self).input@.len() < 80),
            !typed ==> final(self).caret_since == old(self).caret_since,
            final(self).items_spec() == old(self).items_spec(),
            final(self).focused == old(self).focused,
            old(self).wf() && is_renderable(c) ==> final(self).wf(),
    {
        let n = chars_of(self.input.as_str()).len();
        if n < MAX_INPUT {
            self.input.push(c);
            self.caret_since = now();
            true
        } else {
            false
        }
    }

    /// Deletes the last character of the input, if any. Returns whether one was deleted.
    pub fn backspace(&mut self) -> (deleted: bool)
        ensures
            deleted == (old(self).input@.len() > 0),
            deleted ==> final(self).input@ == old(self).input@.drop_last(),
            !deleted ==> final(self).input@ == old(self).input@,
            !deleted ==> final(self).caret_since == old(self).caret_since,
            final(self).items_spec() == old(self).items_spec(),
            final(self).focused == old(self).focused,
            old(self).wf() ==> final(self).wf(),
    {
        match self.input.pop() {
            Some(_) => {
                self.caret_since = now();
                true
            },
            None => false,
        }
    }

    /// Handles a key. Escape asks to quit when pressed. Any other key acts only when pressed
    /// while the input has focus: Enter adds the input as a task, Backspace deletes a
    /// character, Space and text keys type their characters (text sanitized first).
    pub fn handle_key(&mut self, key: &KeyInput, pressed: bool) -> (r: KeyOutcome)
        ensures
            final(self).focused == old(self).focused,
            old(self).wf() ==> final(self).wf(),
            (r == KeyOutcome::Ignored || r == KeyOutcome::Quit) ==> final(self).caret_since
                == old(self).caret_since,
            (*key is Escape || !pressed || !old(self).focused) ==> final(self).items_spec()
                == old(self).items_spec() && final(self).input@ == old(self).input@,
            *key is Escape ==> r == if pressed { KeyOutcome::Quit } else { KeyOutcome::Ignored },
            !(*key is Escape) && (!pressed || !old(self).focused) ==> r == KeyOutcome::Ignored,
            !(*key is Escape) && pressed && old(self).focused ==> match *key {
                KeyInput::Enter => {
                    let t = trim(old(self).input@);
                    &&& r == if t.len() > 0 { KeyOutcome::Added } else { KeyOutcome::Ignored }
                    &&& t.len() > 0 ==> final(self).items_spec() == old(self).items_spec().push((t, false))
                        && final(self).input@ == Seq::<char>::empty()
                    &&& t.len() == 0 ==> final(self).items_spec() == old(self).items_spec()
                        && final(self).input@ == old(self).input@
                },
                KeyInput::Backspace => {
                    &&& final(self).items_spec() == old(self).items_spec()
                    &&& final(self).input@ == if old(self).input@.len() > 0 {
                        old(self).input@.drop_last()
                    } else {
                        old(self).input@
                    }
                    &&& r == if old(self).input@.len() > 0 { KeyOutcome::Edited } else { KeyOutcome::Ignored }
                },
                KeyInput::Space => {
                    &&& final(self).items_spec() == old(self).items_spec()
                    &&& final(self).input@ == spec_type_one(old(self).input@, ' ')
                    &&& r == if old(self).input@.len() < 80 { KeyOutcome::Edited } else { KeyOutcome::Ignored }
                },
                KeyInput::Text(text) => {
                    let typed = spec_type_all(old(self).input@, sanitize_all(text@));
                    &&& final(self).items_spec() == old(self).items_spec()
                    &&& final(self).input@ == typed
                    &&& r == if typed.len() > old(self).input@.len() { KeyOutcome::Edited } else { KeyOutcome::Ignored }
                },
                _ => {
                    &&& final(self).items_spec() == old(self).items_spec()
                    &&& final(self).input@ == old(self).input@
                    &&& r == KeyOutcome::Ignored
                },
            },
    {
        if let KeyInput::Escape = key {
            return if pressed { KeyOutcome::Quit } else { KeyOutcome::Ignored };
        }
        if !pressed || !self.focused {
            return KeyOutcome::Ignored;
        }
        match key {
            KeyInput::Enter => {
                if self.add_task() {
                    KeyOutcome::Added
                } else {
                    KeyOutcome::Ignored
                }
            },
            KeyInput::Backspace => {
                if self.backspace() {
                    KeyOutcome::Edited
                } else {
                    KeyOutcome::Ignored
                }
            },
            KeyInput::Space => {
                if self.type_char(' ') {
                    KeyOutcome::Edited
                } else {
                    KeyOutcome::Ignored
                }
            },
            KeyInput::Text(text) => {
                let cs = chars_of(text.as_str());
                let mut clean: Vec<char> = Vec::new();
                let mut i: usize = 0;
                while i < cs.len()
                    invariant
                        0 <= i <= cs.len(),
                        clean@ == sanitize_all(cs@.subrange(0, i as int)),
                    decreases cs.len() - i,
                {
                    assert(cs@.subrange(0, i + 1).drop_last() =~= cs@.subrange(0, i as int));
                    match sanitize(cs[i]) {
                        Some(c) => clean.push(c),
                        None => {},
                    }
                    i = i + 1;
                }
                assert(cs@.subrange(0, cs@.len() as int) =~= cs@);
                proof {
                    lemma_sanitize_all_renderable(text@);
                }
                let ghost start = self.input@;
                assert(clean@.subrange(0, clean@.len() as int) =~= clean@);
                let mut edited = false;
                let mut k: usize = 0;
                while k < clean.len()
                    invariant
                        0 <= k <= clean.len(),
                        clean@ == sanitize_all(text@),
                        forall|j: int| 0 <= j < clean@.len() ==> is_renderable(#[trigger] clean@[j]),
                        spec_type_all(self.input@, clean@.subrange(k as int, clean@.len() as int))
                            == spec_type_all(start, clean@),
                        self.items_spec() == old(self).items_spec(),
                        self.focused == old(self).focused,
                        start == old(self).input@,
                        edited == (self.input@.len() > start.len()),
                        !edited ==> self.caret_since == old(self).caret_since,
                        self.input@.len() >= start.len(),
                        old(self).wf() ==> self.wf(),
                    decreases clean.len() - k,
                {
                    let ghost sub = clean@.subrange(k as int, clean@.len() as int);
                    assert(sub.drop_first() =~= clean@.subrange(k + 1, clean@.len() as int));
                    assert(sub[0] == clean@[k as int]);
                    if self.type_char(clean[k]) {
                        edited = true;
                    }
                    k = k + 1;
                }
                assert(clean@.subrange(k as int, clean@.len() as int) =~= Seq::<char>::empty());
                if edited {
                    KeyOutcome::Edited
                } else {
                    KeyOutcome::Ignored
                }
            },
            _ => KeyOutcome::Ignored,
        }
    }

    /// Flips whether item `i` is done.
    pub fn toggle(&mut self, i: usize)
        requires
            i < old(self).items@.len(),
        ensures
            final(self).items_spec() == spec_toggle(old(self).items_spec(), i as int),
            final(self).input@ == old(self).input@,
            final(self).caret_since == old(self).caret_since,
            final(self).focused == old(self).focused,
            old(self).wf() ==> final(self).wf(),
    {
        let ghost before = self.items_spec();
        let d = self.items[i].done;
        self.items[i].done = !d;
        assert(self.items_spec() =~= before.update(i as int, (before[i as int].0, !before[i as int].1)));
    }

    /// Deletes item `i`.
    pub fn remove(&mut self, i: usize)
        requires
            i < old(self).items@.len(),
        ensures
            final(self).items_spec() == old(self).items_spec().remove(i as int),
            final(self).input@ == old(self).input@,
            final(self).caret_since == old(self).caret_since,
            final(self).focused == old(self).focused,
            old(self).wf() ==> final(self).wf(),
    {
        let ghost before = self.items_spec();
        let _ = self.items.remove(i);
        assert(self.items_spec() =~= before.remove(i as int));
        proof {
            if old(self).wf() {
                assert forall|j: int| 0 <= j < self.items_spec().len() implies is_clean_text(
                    #[trigger] self.items_spec()[j].0,
                ) by {
                    if j < i {
                        assert(self.items_spec()[j] == before[j]);
                    } else {
                        assert(self.items_spec()[j] == before[j + 1]);
                    }
                }
            }
        }
    }

    /// Deletes every item that is done, keeping the others in order.
    pub fn clear_completed(&mut self)
        ensures
            final(self).items_spec() == keep_open(old(self).items_spec()),
            final(self).input@ == old(self).input@,
            final(self).caret_since == old(self).caret_since,
            final(self).focused == old(self).focused,
            old(self).wf() ==> final(self).wf(),
    {
        let ghost all = self.items_spec();
        let mut kept: Vec<Todo> = Vec::new();
        let mut i: usize = 0;
        while i < self.items.len()
            invariant
                0 <= i <= self.items.len(),
                all == self.items_spec(),
                items_view(kept@) == keep_open(all.subrange(0, i as int)),
                old(self).wf() ==> all_clean(items_view(kept@)),
                old(self).wf() ==> all_clean(all),
                all == old(self).items_spec(),
            decreases self.items.len() - i,
        {
            assert(all.subrange(0, i + 1).drop_last() =~= all.subrange(0, i as int));
            assert(all.subrange(0, i + 1).last() == all[i as int]);
            if !self.items[i].done {
                let ghost before = items_view(kept@);
                let text = self.items[i].text.clone();
                kept.push(Todo { text, done: false });
                assert(items_view(kept@) =~= before.push(all[i as int]));
                proof {
                    if old(self).wf() {
                        assert forall|j: int| 0 <= j < items_view(kept@).len() implies is_clean_text(
                            #[trigger] items_view(kept@)[j].0,
                        ) by {
                            if j < before.len() {
                                assert(items_view(kept@)[j] == before[j]);
                            }
                        }
                    }
                }
            }
            i = i + 1;
        }
        assert(all.subrange(0, i as int) =~= all);
        self.items = kept;
    }

    /// Sets the focus of the input field at the end of a frame: it has focus when the field
    /// or the add button was clicked, or when it had focus before and nothing else was
    /// clicked. The caret restarts when focus changes.
    pub fn settle_focus(
        &mut self,
        was_focused: bool,
        field_clicked: bool,
        add_clicked: bool,
        interacted_elsewhere: bool,
    )
        ensures
            final(self).focused == (field_clicked || add_clicked || (was_focused
                && !interacted_elsewhere)),
            final(self).focused == was_focused ==> final(self).caret_since == old(self).caret_since,
            final(self).items_spec() == old(self).items_spec(),
            final(self).input@ == old(self).input@,
            old(self).wf() ==> final(self).wf(),
    {
        self.focused = field_clicked || add_clicked || (was_focused && !interacted_elsewhere);
        if self.focused != was_focused {
            self.caret_since = now();
        }
    }

    /// Restarts the caret blink, as a click on the input field does.
    pub fn restart_caret(&mut self)
        ensures
            final(self).items_spec() == old(self).items_spec(),
            final(self).input@ == old(self).input@,
            final(self).focused == old(self).focused,
    {
        self.caret_since = now();
    }
}

/// The list with item `i` flipped between open and done.
pub open spec fn spec_toggle(items: Seq<(Seq<char>, bool)>, i: int) -> Seq<(Seq<char>, bool)> {
    items.update(i, (items[i].0, !items[i].1))
}

/// Every item is either open or done: the two counts add up to the length of the list.
pub proof fn lemma_counts_partition(items: Seq<(Seq<char>, bool)>)
    ensures
        count_open(items) + count_done(items) == items.len(),
    decreases items.len(),
{
    if items.len() > 0 {
        lemma_counts_partition(items.drop_last());
    }
}

/// Clearing completed items leaves no item done and every open item in place.
pub proof fn lemma_clear_completed_counts(items: Seq<(Seq<char>, bool)>)
    ensures
        count_done(keep_open(items)) == 0,
        count_open(keep_open(items)) == count_open(items),
        keep_open(items).len() == count_open(items),
    decreases items.len(),
{
    if items.len() > 0 {
        lemma_clear_completed_counts(items.drop_last());
        if !items.last().1 {
            let k = keep_open(items.drop_last()).push(items.last());
            assert(k.drop_last() =~= keep_open(items.drop_last()));
        }
    }
}

/// A new task is open: adding one raises the open count by one and leaves the done count.
pub proof fn lemma_add_counts(items: Seq<(Seq<char>, bool)>, text: Seq<char>)
    ensures
        count_open(items.push((text, false))) == count_open(items) + 1,
        count_done(items.push((text, false))) == count_done(items),
{
    assert(items.push((text, false)).drop_last() =~= items);
}

/// Toggling an item twice gives the list back.
pub proof fn lemma_toggle_twice(items: Seq<(Seq<char>, bool)>, i: int)
    requires
        0 <= i < items.len(),
    ensures
        spec_toggle(spec_toggle(items, i), i) == items,
{
    assert(spec_toggle(spec_toggle(items, i), i) =~= items);
}

/// Typing into an input of at most `MAX_INPUT` characters appends as many of the typed
/// characters as fit, and drops the rest: the input never grows past `MAX_INPUT`.
pub proof fn lemma_type_all_fills_to_limit(input: Seq<char>, cs: Seq<char>)
    requires
        input.len() <= 80,
    ensures
        spec_type_all(input, cs) == input + cs.take(
            if cs.len() <= 80 - input.len() { cs.len() as int } else { 80 - input.len() },
        ),
        spec_type_all(input, cs).len() <= 80,
    decreases cs.len(),
{
    if cs.len() > 0 {
        let next = spec_type_one(input, cs[0]);
        lemma_type_all_fills_to_limit(next, cs.drop_first());
        let rest = cs.drop_first();
        if input.len() < 80 {
            let m = if rest.len() <= 80 - next.len() { rest.len() as int } else { 80 - next.len() };
            assert(next + rest.take(m) =~= input + cs.take(m + 1));
        } else {
            assert(cs.take(0) =~= Seq::<char>::empty());
            assert(rest.take(0) =~= Seq::<char>::empty());
            assert(input + cs.take(0) =~= input);
            assert(next + rest.take(0) =~= input);
        }
    } else {
        assert(input + cs.take(0) =~= input);
    }
}

/// Saving what was loaded from any file and loading it again gives the same items: the
/// save format of a loaded list is stable.
pub proof fn lemma_load_save_stable(data: Seq<char>)
    ensures
        spec_parse_save_file(spec_encode_save_file(spec_parse_save_file(data)))
            == spec_parse_save_file(data),
{
    lemma_parsed_file_clean(data);
    lemma_save_load_roundtrip(spec_parse_save_file(data));
}

/// Clearing completed items keeps exactly the open items, in their order: it is the filter
/// of the list by "not done".
pub proof fn lemma_keep_open_is_filter(items: Seq<(Seq<char>, bool)>)
    ensures
        keep_open(items) == items.filter(|x: (Seq<char>, bool)| !x.1),
    decreases items.len(),
{
    if items.len() > 0 {
        lemma_keep_open_is_filter(items.drop_last());
        items.drop_last().lemma_filter_push(items.last(), |x: (Seq<char>, bool)| !x.1);
        assert(items.drop_last().push(items.last()) =~= items);
    } else {
        reveal(Seq::filter);
    }
}

/// The counts are the numbers of items done and not done, wherever they stand in the list.
pub proof fn lemma_counts_are_filters(items: Seq<(Seq<char>, bool)>)
    ensures
        count_done(items) == items.filter(|x: (Seq<char>, bool)| x.1).len(),
        count_open(items) == items.filter(|x: (Seq<char>, bool)| !x.1).len(),
    decreases items.len(),
{
    if items.len() > 0 {
        lemma_counts_are_filters(items.drop_last());
        items.drop_last().lemma_filter_push(items.last(), |x: (Seq<char>, bool)| x.1);
        items.drop_last().lemma_filter_push(items.last(), |x: (Seq<char>, bool)| !x.1);
        assert(items.drop_last().push(items.last()) =~= items);
    } else {
        reveal(Seq::filter);
    }
}

/// A done item is counted as done, and not as open, wherever it is appended.
pub proof fn lemma_done_counts(items: Seq<(Seq<char>, bool)>, text: Seq<char>)
    ensures
        count_done(items.push((text, true))) == count_done(items) + 1,
        count_open(items.push((text, true))) == count_open(items),
{
    assert(items.push((text, true)).drop_last() =~= items);
}

/// Toggling item `i` flips its flag and changes nothing else: its text, the other items and
/// the length stay.
pub proof fn lemma_toggle_flips_only_flag(items: Seq<(Seq<char>, bool)>, i: int)
    requires
        0 <= i < items.len(),
    ensures
        spec_toggle(items, i).len() == items.len(),
        spec_toggle(items, i)[i].0 == items[i].0,
        spec_toggle(items, i)[i].1 == !items[i].1,
        forall|j: int| 0 <= j < items.len() && j != i ==> spec_toggle(items, i)[j] == items[j],
{
}

/// A line made of a flag without tabs, a tab and a clean text reads as that text, done
/// exactly when the trimmed flag is `1`.
pub proof fn lemma_parse_flag_tab_text(flag: Seq<char>, t: Seq<char>)
    requires
        forall|j: int| 0 <= j < flag.len() ==> flag[j] != '\t',
        is_clean_text(t),
    ensures
        spec_parse_save_line(flag + seq!['\t'] + t) == Some((t, trim(flag) == seq!['1'])),
{
    let l = flag + seq!['\t'] + t;
    lemma_prefix_without_at(l, '\t', flag.len() as int);
    assert(l.subrange(flag.len() as int + 1, l.len() as int) =~= t);
    assert(l.subrange(0, flag.len() as int) =~= flag);
    lemma_sanitize_all_renderable(t);
    assert(is_renderable(t[0]));
    assert(is_renderable(t[t.len() - 1]));
    lemma_trim_unchanged(t);
}

/// The save format, line by line: `0<TAB>t` is the open item `t` and `1<TAB>t` the done
/// item `t`, for every clean text `t`.
pub proof fn lemma_parse_open_and_done_lines(t: Seq<char>)
    requires
        is_clean_text(t),
    ensures
        spec_parse_save_line(seq!['0', '\t'] + t) == Some((t, false)),
        spec_parse_save_line(seq!['1', '\t'] + t) == Some((t, true)),
{
    lemma_parse_flag_tab_text(seq!['0'], t);
    lemma_parse_flag_tab_text(seq!['1'], t);
    assert(seq!['0'] + seq!['\t'] + t =~= seq!['0', '\t'] + t);
    assert(seq!['1'] + seq!['\t'] + t =~= seq!['1', '\t'] + t);
    lemma_trim_unchanged(seq!['0']);
    lemma_trim_unchanged(seq!['1']);
    assert(seq!['0'][0] != seq!['1'][0]);
}

/// The line that stores an item is its flag character (`1` when done, `0` when open), a
/// tab, and its text unchanged.
pub proof fn lemma_encode_line_layout(item: (Seq<char>, bool))
    ensures
        spec_encode_save_line(item).len() == item.0.len() + 2,
        spec_encode_save_line(item)[0] == if item.1 { '1' } else { '0' },
        spec_encode_save_line(item)[1] == '\t',
        spec_encode_save_line(item).subrange(2, item.0.len() as int + 2) == item.0,
{
    assert(spec_encode_save_line(item).subrange(2, item.0.len() as int + 2) =~= item.0);
}

/// Splitting a file into lines: a line without `\n`, ended by `\n` or `\r\n`, comes out as
/// that line, followed by the lines of the rest; an empty file has no lines, and a last
/// line with no line end comes out as it is.
pub proof fn lemma_split_lines_layout(l: Seq<char>, rest: Seq<char>)
    requires
        forall|j: int| 0 <= j < l.len() ==> l[j] != '\n',
    ensures
        split_lines(Seq::<char>::empty()) == Seq::<Seq<char>>::empty(),
        l.len() > 0 ==> split_lines(l) == seq![l],
        (l.len() == 0 || l.last() != '\r') ==> split_lines(l + seq!['\n'] + rest) == seq![l]
            + split_lines(rest),
        split_lines(l + seq!['\r', '\n'] + rest) == seq![l] + split_lines(rest),
{
    if l.len() > 0 {
        lemma_prefix_without_at(l, '\n', l.len() as int);
    }
    let e = l + seq!['\n'] + rest;
    lemma_prefix_without_at(e, '\n', l.len() as int);
    assert(e.subrange(0, l.len() as int) =~= l);
    assert(e.subrange(l.len() as int + 1, e.len() as int) =~= rest);
    let lr = l.push('\r');
    let e2 = l + seq!['\r', '\n'] + rest;
    assert(e2 =~= lr + seq!['\n'] + rest);
    lemma_prefix_without_at(e2, '\n', lr.len() as int);
    assert(e2.subrange(0, lr.len() as int) =~= lr);
    assert(lr.drop_last() =~= l);
    assert(e2.subrange(lr.len() as int + 1, e2.len() as int) =~= rest);
}

} // verus!
