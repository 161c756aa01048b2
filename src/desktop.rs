use vstd::prelude::*;
use crate::commands::{items_view, opt_view, ItemType, LaunchItem, LaunchItemView};
use crate::order::{compare_chars, lemma_lex_total, lemma_lex_transitive, lex_lt};
use crate::text::{chars_of, has_prefix, occurs_at_index, string_from_chars};

verus! {

/// Characters with the Unicode White_Space property.
pub open spec fn is_space(c: char) -> bool {
    let u = c as u32;
    (0x9 <= u <= 0xd) || u == 0x20 || u == 0x85 || u == 0xa0 || u == 0x1680 || (0x2000 <= u
        <= 0x200a) || u == 0x2028 || u == 0x2029 || u == 0x202f || u == 0x205f || u == 0x3000
}

/// Whether `c` is white space.
pub fn is_space_char(c: char) -> (r: bool)
    ensures
        r == is_space(c),
{
    let u = c as u32;
    (0x9 <= u && u <= 0xd) || u == 0x20 || u == 0x85 || u == 0xa0 || u == 0x1680 || (0x2000 <= u
        && u <= 0x200a) || u == 0x2028 || u == 0x2029 || u == 0x202f || u == 0x205f || u == 0x3000
}

pub open spec fn trim_start(s: Seq<char>) -> Seq<char>
    decreases s.len(),
{
    if s.len() > 0 && is_space(s[0]) {
        trim_start(s.drop_first())
    } else {
        s
    }
}

pub open spec fn trim_end(s: Seq<char>) -> Seq<char>
    decreases s.len(),
{
    if s.len() > 0 && is_space(s.last()) {
        trim_end(s.drop_last())
    } else {
        s
    }
}

/// `s` without white space at either end.
pub open spec fn trim(s: Seq<char>) -> Seq<char> {
    trim_end(trim_start(s))
}

/// The keys of a desktop entry that the launcher reads.
pub open spec fn key_no_display() -> Seq<char> {
    "NoDisplay=true"@
}

pub open spec fn key_hidden() -> Seq<char> {
    "Hidden=true"@
}

pub open spec fn key_name() -> Seq<char> {
    "Name="@
}

pub open spec fn key_exec() -> Seq<char> {
    "Exec="@
}

pub open spec fn key_comment() -> Seq<char> {
    "Comment="@
}

pub open spec fn key_icon() -> Seq<char> {
    "Icon="@
}

/// What a desktop entry has said so far.
pub ghost struct EntryFields {
    pub name: Option<Seq<char>>,
    pub exec_line: Option<Seq<char>>,
    pub comment: Option<Seq<char>>,
    pub icon: Option<Seq<char>>,
    pub no_display: bool,
    pub hidden: bool,
}

pub open spec fn no_fields() -> EntryFields {
    EntryFields {
        name: None,
        exec_line: None,
        comment: None,
        icon: None,
        no_display: false,
        hidden: false,
    }
}

/// The rest of `line` after `key`.
pub open spec fn after(line: Seq<char>, key: Seq<char>) -> Seq<char> {
    line.subrange(key.len() as int, line.len() as int)
}

/// What one trimmed line adds: the first `Name=` counts, and the last of
/// each other key.
pub open spec fn line_step(f: EntryFields, line: Seq<char>) -> EntryFields {
    if has_prefix(line, key_no_display()) {
        EntryFields { no_display: true, ..f }
    } else if has_prefix(line, key_hidden()) {
        EntryFields { hidden: true, ..f }
    } else if has_prefix(line, key_name()) && f.name is None {
        EntryFields { name: Some(after(line, key_name())), ..f }
    } else if has_prefix(line, key_exec()) {
        EntryFields { exec_line: Some(after(line, key_exec())), ..f }
    } else if has_prefix(line, key_comment()) {
        EntryFields { comment: Some(after(line, key_comment())), ..f }
    } else if has_prefix(line, key_icon()) {
        EntryFields { icon: Some(after(line, key_icon())), ..f }
    } else {
        f
    }
}

/// The fields read from the complete lines of `s`, and its unfinished last line.
pub open spec fn scan_lines(s: Seq<char>) -> (EntryFields, Seq<char>)
    decreases s.len(),
{
    if s.len() == 0 {
        (no_fields(), seq![])
    } else {
        let (f, cur) = scan_lines(s.drop_last());
        if s.last() == '\n' {
            (line_step(f, trim(cur)), seq![])
        } else {
            (f, cur.push(s.last()))
        }
    }
}

/// The fields of a desktop entry, read line by line.
pub open spec fn entry_fields(s: Seq<char>) -> EntryFields {
    let (f, cur) = scan_lines(s);
    line_step(f, trim(cur))
}

/// `out` with `word` appended after a space, unless `word` is empty or is
/// a field code (starts with `%`).
pub open spec fn add_word(out: Seq<char>, word: Seq<char>) -> Seq<char> {
    if word.len() == 0 || word[0] == '%' {
        out
    } else if out.len() == 0 {
        word
    } else {
        out + seq![' '] + word
    }
}

/// The words of `s` so far, and its unfinished last word.
pub open spec fn scan_words(s: Seq<char>) -> (Seq<char>, Seq<char>)
    decreases s.len(),
{
    if s.len() == 0 {
        (seq![], seq![])
    } else {
        let (out, cur) = scan_words(s.drop_last());
        if is_space(s.last()) {
            (add_word(out, cur), seq![])
        } else {
            (out, cur.push(s.last()))
        }
    }
}

/// The command line of `s` without field codes, its words joined by one space.
pub open spec fn clean_command(s: Seq<char>) -> Seq<char> {
    let (out, cur) = scan_words(s);
    add_word(out, cur)
}

/// The application that desktop entry text `content` describes: `None`
/// when it is hidden or lacks a name or a command.
pub open spec fn desktop_item(content: Seq<char>) -> Option<LaunchItemView> {
    let f = entry_fields(content);
    if f.no_display || f.hidden || f.name is None || f.exec_line is None {
        None
    } else {
        Some(
            LaunchItemView {
                name: f.name->0,
                display_name: f.name->0,
                command: clean_command(f.exec_line->0),
                description: f.comment,
                icon: f.icon,
                item_type: ItemType::Application,
            },
        )
    }
}

fn sub_chars(s: &Vec<char>, from: usize, to: usize) -> (r: Vec<char>)
    requires
        from <= to <= s@.len(),
    ensures
        r@ == s@.subrange(from as int, to as int),
{
    let mut r: Vec<char> = Vec::new();
    let mut i: usize = from;
    while i < to
        invariant
            from <= i <= to <= s@.len(),
            r@ == s@.subrange(from as int, i as int),
        decreases to - i,
    {
        r.push(s[i]);
        i += 1;
    }
    r
}

/// `s` without white space at either end.
pub fn trim_chars(s: &Vec<char>) -> (r: Vec<char>)
    ensures
        r@ == trim(s@),
{
    let len = s.len();
    let mut a: usize = 0;
    assert(s@.subrange(0, len as int) =~= s@);
    while a < len && is_space_char(s[a])
        invariant
            a <= len == s@.len(),
            trim_start(s@) == trim_start(s@.subrange(a as int, len as int)),
        decreases len - a,
    {
        assert(s@.subrange(a as int, len as int).drop_first() =~= s@.subrange(a + 1, len as int));
        a += 1;
    }
    let mut b: usize = len;
    while b > a && is_space_char(s[b - 1])
        invariant
            a <= b <= len == s@.len(),
            trim(s@) == trim_end(s@.subrange(a as int, b as int)),
        decreases b,
    {
        assert(s@.subrange(a as int, b as int).drop_last() =~= s@.subrange(a as int, b - 1));
        b -= 1;
    }
    sub_chars(s, a, b)
}

pub open spec fn opt_chars(o: Option<Vec<char>>) -> Option<Seq<char>> {
    match o {
        Some(v) => Some(v@),
        None => None,
    }
}

struct Fields {
    name: Option<Vec<char>>,
    exec_line: Option<Vec<char>>,
    comment: Option<Vec<char>>,
    icon: Option<Vec<char>>,
    no_display: bool,
    hidden: bool,
}

impl View for Fields {
    type V = EntryFields;

    closed spec fn view(&self) -> EntryFields {
        EntryFields {
            name: opt_chars(self.name),
            exec_line: opt_chars(self.exec_line),
            comment: opt_chars(self.comment),
            icon: opt_chars(self.icon),
            no_display: self.no_display,
            hidden: self.hidden,
        }
    }
}

/// The desktop entry keys, as characters.
struct Keys {
    no_display: Vec<char>,
    hidden: Vec<char>,
    name: Vec<char>,
    exec_line: Vec<char>,
    comment: Vec<char>,
    icon: Vec<char>,
}

impl Keys {
    spec fn wf(&self) -> bool {
        &&& self.no_display@ == key_no_display()
        &&& self.hidden@ == key_hidden()
        &&& self.name@ == key_name()
        &&& self.exec_line@ == key_exec()
        &&& self.comment@ == key_comment()
        &&& self.icon@ == key_icon()
    }

    fn new() -> (r: Keys)
        ensures
            r.wf(),
    {
        Keys {
            no_display: chars_of("NoDisplay=true"),
            hidden: chars_of("Hidden=true"),
            name: chars_of("Name="),
            exec_line: chars_of("Exec="),
            comment: chars_of("Comment="),
            icon: chars_of("Icon="),
        }
    }
}

fn value_after(line: &Vec<char>, key: &Vec<char>) -> (r: Vec<char>)
    requires
        has_prefix(line@, key@),
    ensures
        r@ == after(line@, key@),
{
    sub_chars(line, key.len(), line.len())
}

fn apply_line(f: &mut Fields, keys: &Keys, line: &Vec<char>)
    requires
        keys.wf(),
    ensures
        final(f)@ == line_step(old(f)@, line@),
{
    if occurs_at_index(line, &keys.no_display, 0) {
        f.no_display = true;
    } else if occurs_at_index(line, &keys.hidden, 0) {
        f.hidden = true;
    } else if occurs_at_index(line, &keys.name, 0) && f.name.is_none() {
        f.name = Some(value_after(line, &keys.name));
    } else if occurs_at_index(line, &keys.exec_line, 0) {
        f.exec_line = Some(value_after(line, &keys.exec_line));
    } else if occurs_at_index(line, &keys.comment, 0) {
        f.comment = Some(value_after(line, &keys.comment));
    } else if occurs_at_index(line, &keys.icon, 0) {
        f.icon = Some(value_after(line, &keys.icon));
    }
}

fn read_fields(content: &Vec<char>) -> (r: Fields)
    ensures
        r@ == entry_fields(content@),
{
    let keys = Keys::new();
    let mut f = Fields {
        name: None,
        exec_line: None,
        comment: None,
        icon: None,
        no_display: false,
        hidden: false,
    };
    let mut cur: Vec<char> = Vec::new();
    let mut i: usize = 0;
    while i < content.len()
        invariant
            i <= content@.len(),
            keys.wf(),
            (f@, cur@) == scan_lines(content@.take(i as int)),
        decreases content@.len() - i,
    {
        assert(content@.take(i + 1).drop_last() =~= content@.take(i as int));
        let c = content[i];
        if c == '\n' {
            let line = trim_chars(&cur);
            apply_line(&mut f, &keys, &line);
            cur = Vec::new();
        } else {
            cur.push(c);
        }
        i += 1;
    }
    assert(content@.take(content@.len() as int) =~= content@);
    let line = trim_chars(&cur);
    apply_line(&mut f, &keys, &line);
    f
}

fn push_word(out: &mut Vec<char>, word: &Vec<char>)
    ensures
        final(out)@ == add_word(old(out)@, word@),
{
    if word.len() == 0 || word[0] == '%' {
        return;
    }
    if out.len() > 0 {
        out.push(' ');
    }
    let ghost before = out@;
    let mut i: usize = 0;
    while i < word.len()
        invariant
            i <= word@.len(),
            out@ == before + word@.take(i as int),
        decreases word@.len() - i,
    {
        out.push(word[i]);
        i += 1;
    }
    assert(word@.take(word@.len() as int) =~= word@);
    assert(add_word(old(out)@, word@) =~= out@);
}

/// The command line `s` without field codes, its words joined by one space.
pub fn clean_exec(s: &Vec<char>) -> (r: Vec<char>)
    ensures
        r@ == clean_command(s@),
{
    let mut out: Vec<char> = Vec::new();
    let mut cur: Vec<char> = Vec::new();
    let mut i: usize = 0;
    while i < s.len()
        invariant
            i <= s@.len(),
            (out@, cur@) == scan_words(s@.take(i as int)),
        decreases s@.len() - i,
    {
        assert(s@.take(i + 1).drop_last() =~= s@.take(i as int));
        let c = s[i];
        if is_space_char(c) {
            push_word(&mut out, &cur);
            cur = Vec::new();
        } else {
            cur.push(c);
        }
        i += 1;
    }
    assert(s@.take(s@.len() as int) =~= s@);
    push_word(&mut out, &cur);
    out
}

fn string_opt(o: &Option<Vec<char>>) -> (r: Option<String>)
    ensures
        opt_view(r) == opt_chars(*o),
{
    match o {
        Some(v) => Some(string_from_chars(v)),
        None => None,
    }
}

/// The application that the text of a desktop entry describes, if it is
/// shown and has a name and a command.
pub fn parse_desktop_entry(content: &str) -> (r: Option<LaunchItem>)
    ensures
        match r {
            Some(item) => desktop_item(content@) == Some(item@),
            None => desktop_item(content@) is None,
        },
{
    let text = chars_of(content);
    let f = read_fields(&text);
    if f.no_display || f.hidden {
        return None;
    }
    match (&f.name, &f.exec_line) {
        (Some(name), Some(line)) => {
            let command = clean_exec(line);
            Some(
                LaunchItem {
                    name: string_from_chars(name),
                    display_name: string_from_chars(name),
                    command: string_from_chars(&command),
                    description: string_opt(&f.comment),
                    icon: string_opt(&f.icon),
                    item_type: ItemType::Application,
                },
            )
        },
        _ => None,
    }
}

/// `items` is ordered by display name: no item comes after one whose
/// display name is greater.
pub open spec fn sorted_by_display_name(items: Seq<LaunchItem>) -> bool {
    forall|a: int, b: int|
        0 <= a < b < items.len() ==> !lex_lt(
            #[trigger] items[b].display_name@,
            #[trigger] items[a].display_name@,
        )
}

/// The same items, ordered by display name.
pub fn sort_by_display_name(items: Vec<LaunchItem>) -> (r: Vec<LaunchItem>)
    ensures
        items_view(r@).to_multiset() == items_view(items@).to_multiset(),
        sorted_by_display_name(r@),
{
    let mut r: Vec<LaunchItem> = Vec::new();
    let mut keys: Vec<Vec<char>> = Vec::new();
    let mut k: usize = 0;
    assert(items_view(r@) =~= items_view(items@.take(0)));
    while k < items.len()
        invariant
            k <= items@.len(),
            keys@.len() == r@.len(),
            forall|i: int| 0 <= i < r@.len() ==> (#[trigger] keys@[i])@ == r@[i].display_name@,
            items_view(r@).to_multiset() == items_view(items@.take(k as int)).to_multiset(),
            sorted_by_display_name(r@),
        decreases items@.len() - k,
    {
        let item = items[k].duplicate();
        let key = chars_of(item.display_name.as_str());
        let mut p: usize = r.len();
        while p > 0 && compare_chars(&keys[p - 1], &key) == 1
            invariant
                p <= r@.len(),
                keys@.len() == r@.len(),
                forall|q: int| p <= q < r@.len() ==> lex_lt(key@, (#[trigger] keys@[q])@),
            decreases p,
        {
            p -= 1;
        }
        let ghost old_r = r@;
        let ghost old_keys = keys@;
        proof {
            assert forall|a: int| 0 <= a < p implies !lex_lt(key@, #[trigger] old_r[a].display_name@) by {
                lemma_lex_total(old_keys[p - 1]@, key@);
                if a < p - 1 {
                    assert(!lex_lt(old_r[p - 1].display_name@, old_r[a].display_name@));
                    lemma_lex_total(old_r[a].display_name@, old_keys[p - 1]@);
                    if lex_lt(key@, old_r[a].display_name@) {
                        if old_r[a].display_name@ != old_keys[p - 1]@ {
                            lemma_lex_transitive(key@, old_r[a].display_name@, old_keys[p - 1]@);
                        }
                    }
                }
            }
        }
        r.insert(p, item);
        keys.insert(p, key);
        proof {
            old_r.insert_ensures(p as int, item);
            old_keys.insert_ensures(p as int, key);
            assert(items_view(r@) =~= items_view(old_r).insert(p as int, item@));
            assert(items_view(items@.take(k + 1)) =~= items_view(items@.take(k as int)).push(
                items@[k as int]@,
            ));
            vstd::seq_lib::to_multiset_insert(items_view(old_r), p as int, item@);
            vstd::seq_lib::to_multiset_build(items_view(items@.take(k as int)), items@[k as int]@);
            assert forall|a: int, b: int| 0 <= a < b < r@.len() implies !lex_lt(
                #[trigger] r@[b].display_name@,
                #[trigger] r@[a].display_name@,
            ) by {
                if b < p {
                    assert(r@[a] == old_r[a] && r@[b] == old_r[b]);
                } else if a > p {
                    assert(r@[a] == old_r[a - 1] && r@[b] == old_r[b - 1]);
                } else if b == p {
                    assert(r@[a] == old_r[a]);
                    assert(!lex_lt(key@, old_r[a].display_name@));
                } else if a < p {
                    assert(r@[a] == old_r[a] && r@[b] == old_r[b - 1]);
                } else {
                    assert(r@[b] == old_r[b - 1]);
                    lemma_lex_total(key@, old_keys[b - 1]@);
                }
            }
            assert forall|i: int| 0 <= i < r@.len() implies (#[trigger] keys@[i])@ == r@[i].display_name@ by {
                if i < p {
                    assert(keys@[i] == old_keys[i] && r@[i] == old_r[i]);
                } else if i > p {
                    assert(keys@[i] == old_keys[i - 1] && r@[i] == old_r[i - 1]);
                }
            }
        }
        k += 1;
    }
    assert(items@.take(items@.len() as int) =~= items@);
    r
}

} // verus!
