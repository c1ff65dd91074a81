//! Reading a line from a raw terminal: the editing of the line as the keys
//! arrive, and what each key makes the terminal show.
use vstd::prelude::*;

use crate::text::string_push;

verus! {

#[derive(Debug, Clone, Copy, PartialEq, Eq, Structural)]
pub enum IoProviderError {
    ErrorWhilePrinting,
}

/// A terminal that lines are read from and text is written to.
pub trait IoProvider {
    fn get_line(&mut self) -> Result<String, IoProviderError>;

    fn write(&mut self, payload: String) -> Result<(), IoProviderError>;

    fn write_line(&mut self, payload: String) -> Result<(), IoProviderError>;
}

/// A key that the user pressed.
#[derive(Debug, Clone, Copy, PartialEq, Eq, Structural)]
pub enum KeyEvent {
    Char(char),
    Left,
    Right,
    Backspace,
    Other,
}

/// Something to show on the terminal; each one is written and flushed on
/// its own.
#[derive(Debug)]
pub enum TerminalAction {
    /// This text, at the cursor.
    Text(String),
    /// The cursor one column to the left.
    CursorLeft,
    /// The cursor one column to the right.
    CursorRight,
    /// The character before the cursor blanked, the cursor left on it.
    DeletePrevious,
    /// Everything from the cursor on cleared.
    ClearAfterCursor,
}

/// A terminal action as plain values.
pub enum ActionModel {
    Text(Seq<char>),
    CursorLeft,
    CursorRight,
    DeletePrevious,
    ClearAfterCursor,
}

impl View for TerminalAction {
    type V = ActionModel;

    open spec fn view(&self) -> ActionModel {
        match self {
            TerminalAction::Text(t) => ActionModel::Text(t@),
            TerminalAction::CursorLeft => ActionModel::CursorLeft,
            TerminalAction::CursorRight => ActionModel::CursorRight,
            TerminalAction::DeletePrevious => ActionModel::DeletePrevious,
            TerminalAction::ClearAfterCursor => ActionModel::ClearAfterCursor,
        }
    }
}

pub open spec fn actions_view(s: Seq<TerminalAction>) -> Seq<ActionModel> {
    s.map_values(|a: TerminalAction| a@)
}

/// How many bytes the UTF-8 encoding of a character takes, as
/// `char::len_utf8` gives it.
pub open spec fn utf8_width(c: char) -> nat {
    if (c as u32) < 0x80 {
        1
    } else if (c as u32) < 0x800 {
        2
    } else if (c as u32) < 0x10000 {
        3
    } else {
        4
    }
}

/// The byte at which the `k`-th character starts in the UTF-8 encoding of `s`.
pub open spec fn byte_offset(s: Seq<char>, k: int) -> nat
    decreases k,
{
    if k <= 0 {
        0
    } else {
        byte_offset(s, k - 1) + utf8_width(s[k - 1])
    }
}

/// Byte `b` of the UTF-8 encoding of `s` starts a character, or is its end.
pub open spec fn is_boundary(s: Seq<char>, b: int) -> bool {
    exists|k: int| 0 <= k <= s.len() && #[trigger] byte_offset(s, k) == b
}

/// The index of the character that starts at byte `b`.
pub open spec fn char_at_byte(s: Seq<char>, b: int) -> int {
    choose|k: int| 0 <= k <= s.len() && #[trigger] byte_offset(s, k) == b
}

/// The keys on which the editor is defined: Left needs a character before
/// the cursor, and Backspace needs the byte that it removes at to start a
/// character of the line.
pub open spec fn step_defined(line: Seq<char>, cursor: nat, key: KeyEvent) -> bool {
    match key {
        KeyEvent::Left => cursor > 0,
        KeyEvent::Backspace => cursor == 0 || is_boundary(line, cursor - 1),
        _ => true,
    }
}

proof fn lemma_byte_offset_grows(s: Seq<char>, i: int, j: int)
    requires
        0 <= i <= j,
    ensures
        byte_offset(s, i) + (j - i) <= byte_offset(s, j),
    decreases j,
{
    if i < j {
        lemma_byte_offset_grows(s, i, j - 1);
    }
}

proof fn lemma_char_at_byte(s: Seq<char>, k: int)
    requires
        0 <= k <= s.len(),
    ensures
        is_boundary(s, byte_offset(s, k) as int),
        char_at_byte(s, byte_offset(s, k) as int) == k,
{
    let b = byte_offset(s, k) as int;
    assert(0 <= k <= s.len() && byte_offset(s, k) == b);
    let j = char_at_byte(s, b);
    if j < k {
        lemma_byte_offset_grows(s, j + 1, k);
    } else if j > k {
        lemma_byte_offset_grows(s, k + 1, j);
    }
}

proof fn lemma_byte_offset_prefix(s: Seq<char>, t: Seq<char>, k: int)
    requires
        0 <= k <= s.len(),
        k <= t.len(),
        s.take(k) == t.take(k),
    ensures
        byte_offset(s, k) == byte_offset(t, k),
    decreases k,
{
    if k > 0 {
        assert(s.take(k - 1) == s.take(k).take(k - 1));
        assert(t.take(k - 1) == t.take(k).take(k - 1));
        assert(s[k - 1] == s.take(k)[k - 1]);
        assert(t[k - 1] == t.take(k)[k - 1]);
        lemma_byte_offset_prefix(s, t, k - 1);
    }
}

fn utf8_width_of(c: char) -> (w: usize)
    ensures
        w == utf8_width(c),
{
    let v = c as u32;
    if v < 0x80 {
        1
    } else if v < 0x800 {
        2
    } else if v < 0x10000 {
        3
    } else {
        4
    }
}

/// The index of the character that starts at byte `b` of the UTF-8 encoding
/// of `s`, or `None` when no character starts there.
pub fn char_index_at_byte(s: &Vec<char>, b: usize) -> (r: Option<usize>)
    ensures
        r is Some <==> is_boundary(s@, b as int),
        r matches Some(k) ==> k == char_at_byte(s@, b as int) && k <= s@.len(),
{
    let mut k: usize = 0;
    let mut off: usize = 0;
    while k < s.len() && off < b
        invariant
            k <= s@.len(),
            off == byte_offset(s@, k as int),
            off <= b,
            forall|j: int| 0 <= j < k ==> #[trigger] byte_offset(s@, j) < b,
        decreases s@.len() - k,
    {
        let w = utf8_width_of(s[k]);
        if w > b - off {
            proof {
                assert forall|j: int| 0 <= j <= s@.len() implies #[trigger] byte_offset(s@, j) != b by {
                    if j > k {
                        lemma_byte_offset_grows(s@, (k + 1) as int, j);
                    }
                }
            }
            return None;
        }
        off = off + w;
        k = k + 1;
    }
    if off == b {
        proof {
            lemma_char_at_byte(s@, k as int);
        }
        Some(k)
    } else {
        proof {
            assert forall|j: int| 0 <= j <= s@.len() implies #[trigger] byte_offset(s@, j) != b by {
                if j == k {
                } else if j > k {
                    lemma_byte_offset_grows(s@, k as int, j);
                }
            }
        }
        None
    }
}

/// One key applied to a line and its cursor: the new line, the new cursor,
/// what the terminal shows, and whether the line is complete.
/// - Enter ends the line and moves to the start of the next one.
/// - Left moves the cursor left.
/// - Right moves the cursor right, unless it is at the end of the line.
/// - Backspace, unless the cursor is at the start, steps the cursor back and
///   removes the character whose UTF-8 encoding starts at the byte with the
///   cursor's index (the cursor counts characters typed, the line is indexed
///   by bytes; on ASCII text the two agree), blanks it, clears the rest of the
///   row, shows the line again from that byte on, and steps back once unless
///   the cursor is at the end.
/// - Any other character is shown and appended to the line; the cursor moves
///   one to the right.
/// - Other keys do nothing.
pub open spec fn edit(line: Seq<char>, cursor: nat, key: KeyEvent) -> (Seq<char>, nat, Seq<ActionModel>, bool) {
    match key {
        KeyEvent::Char(c) => if c == '\n' {
            (line, cursor, seq![ActionModel::Text(seq!['\n', '\r'])], true)
        } else {
            (line.push(c), cursor + 1, seq![ActionModel::Text(seq![c])], false)
        },
        KeyEvent::Left => (line, (cursor - 1) as nat, seq![ActionModel::CursorLeft], false),
        KeyEvent::Right => if cursor == line.len() {
            (line, cursor, seq![], false)
        } else {
            (line, cursor + 1, seq![ActionModel::CursorRight], false)
        },
        KeyEvent::Backspace => if cursor == 0 {
            (line, cursor, seq![], false)
        } else {
            let c = (cursor - 1) as nat;
            let rest = if c < line.len() {
                line.remove(char_at_byte(line, c as int))
            } else {
                line
            };
            (
                rest,
                c,
                seq![
                    ActionModel::DeletePrevious,
                    ActionModel::ClearAfterCursor,
                    ActionModel::Text(rest.subrange(char_at_byte(rest, c as int), rest.len() as int)),
                ] + if c != rest.len() {
                    seq![ActionModel::CursorLeft]
                } else {
                    seq![]
                },
                false,
            )
        },
        KeyEvent::Other => (line, cursor, seq![], false),
    }
}

/// The keys applied in turn from a line and cursor, up to the one that
/// completes the line: the final line, cursor, and whether it was completed.
pub open spec fn run_keys(line: Seq<char>, cursor: nat, keys: Seq<KeyEvent>) -> (Seq<char>, nat, bool)
    decreases keys.len(),
{
    if keys.len() == 0 {
        (line, cursor, false)
    } else {
        let (l, c, _, done) = edit(line, cursor, keys[0]);
        if done {
            (l, c, true)
        } else {
            run_keys(l, c, keys.drop_first())
        }
    }
}

/// Every key types a character other than a line break.
pub open spec fn only_characters(keys: Seq<KeyEvent>) -> bool {
    forall|i: int| 0 <= i < keys.len() ==> (#[trigger] keys[i] matches KeyEvent::Char(c) && c != '\n')
}

/// The characters that character keys type.
pub open spec fn typed_text(keys: Seq<KeyEvent>) -> Seq<char> {
    keys.map_values(|k: KeyEvent| k->Char_0)
}

proof fn lemma_typing_appends(p: Seq<char>, keys: Seq<KeyEvent>)
    requires
        only_characters(keys),
    ensures
        run_keys(p, p.len(), keys.push(KeyEvent::Char('\n'))) == (p + typed_text(keys), p.len() + keys.len(), true),
    decreases keys.len(),
{
    let all = keys.push(KeyEvent::Char('\n'));
    if keys.len() == 0 {
        assert(all =~= seq![KeyEvent::Char('\n')]);
        assert(p + typed_text(keys) =~= p);
    } else {
        let k = keys[0];
        assert(all[0] == k);
        assert(all.drop_first() =~= keys.drop_first().push(KeyEvent::Char('\n')));
        let c = k->Char_0;
        assert(only_characters(keys.drop_first())) by {
            assert forall|i: int| 0 <= i < keys.drop_first().len() implies (#[trigger] keys.drop_first()[i] matches KeyEvent::Char(c)
                && c != '\n') by {
                assert(keys.drop_first()[i] == keys[i + 1]);
            }
        }
        lemma_typing_appends(p.push(c), keys.drop_first());
        assert(p.push(c) + typed_text(keys.drop_first()) =~= p + typed_text(keys));
    }
}

/// Keys that each type a character other than a line break, then Enter,
/// from an empty line, read exactly the characters typed, with the cursor
/// after them.
pub proof fn law_typed_line_is_read(keys: Seq<KeyEvent>)
    requires
        only_characters(keys),
    ensures
        run_keys(seq![], 0, keys.push(KeyEvent::Char('\n'))) == (typed_text(keys), keys.len(), true),
{
    lemma_typing_appends(seq![], keys);
    assert(Seq::<char>::empty() + typed_text(keys) =~= typed_text(keys));
}

/// Every character of the text is ASCII.
pub open spec fn is_ascii_text(s: Seq<char>) -> bool {
    forall|i: int| 0 <= i < s.len() ==> (#[trigger] s[i] as u32) < 0x80
}

proof fn lemma_ascii_offsets(s: Seq<char>, k: int)
    requires
        0 <= k <= s.len(),
        forall|i: int| 0 <= i < k ==> (#[trigger] s[i] as u32) < 0x80,
    ensures
        byte_offset(s, k) == k,
    decreases k,
{
    if k > 0 {
        lemma_ascii_offsets(s, k - 1);
    }
}

/// At the end of an ASCII line, Backspace takes back the character just
/// typed. (On other lines the cursor, which counts characters, is used as a
/// byte index, and may fall inside a character.)
pub proof fn law_backspace_undoes_typing(line: Seq<char>, c: char)
    requires
        c != '\n',
        is_ascii_text(line),
    ensures
        ({
            let (l1, c1, _, _) = edit(line, line.len(), KeyEvent::Char(c));
            step_defined(l1, c1, KeyEvent::Backspace) && {
                let (l2, c2, _, done) = edit(l1, c1, KeyEvent::Backspace);
                l2 == line && c2 == line.len() && !done
            }
        }),
{
    let l1 = line.push(c);
    let n = line.len() as int;
    assert forall|i: int| 0 <= i < n implies (#[trigger] l1[i] as u32) < 0x80 by {
        assert(l1[i] == line[i]);
    }
    lemma_ascii_offsets(l1, n);
    lemma_char_at_byte(l1, n);
    assert(l1.remove(n) =~= line);
    lemma_ascii_offsets(line, n);
    lemma_char_at_byte(line, n);
}

/// Left, with a character before the cursor, moves the cursor one
/// character back, tells the terminal to move its cursor one column left and
/// nothing else, and leaves the line as it is.
pub proof fn law_left_moves_both_cursors(line: Seq<char>, cursor: nat)
    requires
        0 < cursor <= line.len(),
    ensures
        edit(line, cursor, KeyEvent::Left) == (line, (cursor - 1) as nat, seq![ActionModel::CursorLeft], false),
{
}

/// Right moves both cursors one to the right unless the cursor is at the end
/// of the line, where it does nothing; the line stays as it is.
pub proof fn law_right_stops_at_the_end(line: Seq<char>, cursor: nat)
    requires
        cursor <= line.len(),
    ensures
        cursor < line.len() ==> edit(line, cursor, KeyEvent::Right) == (
            line,
            cursor + 1,
            seq![ActionModel::CursorRight],
            false,
        ),
        cursor == line.len() ==> edit(line, cursor, KeyEvent::Right) == (
            line,
            cursor,
            Seq::<ActionModel>::empty(),
            false,
        ),
{
}

/// A character other than a line break is echoed, appended to the line, and
/// moves the cursor one on; Enter echoes a line break and completes the line
/// as it is; other keys change nothing and show nothing.
pub proof fn law_typing_and_enter(line: Seq<char>, cursor: nat, c: char)
    ensures
        c != '\n' ==> edit(line, cursor, KeyEvent::Char(c)) == (
            line.push(c),
            cursor + 1,
            seq![ActionModel::Text(seq![c])],
            false,
        ),
        edit(line, cursor, KeyEvent::Char('\n')) == (
            line,
            cursor,
            seq![ActionModel::Text(seq!['\n', '\r'])],
            true,
        ),
        edit(line, cursor, KeyEvent::Other) == (line, cursor, Seq::<ActionModel>::empty(), false),
        edit(line, 0, KeyEvent::Backspace) == (line, 0nat, Seq::<ActionModel>::empty(), false),
{
}

/// Backspace away from the start of the line: the cursor steps back one,
/// the character `j` that starts at that byte of the line is removed, and the
/// terminal blanks the previous column, clears the rest of the row, redraws
/// the whole edited line from character `j` to its end, and steps back once
/// more unless the new cursor equals the number of characters left.
pub proof fn law_backspace_redraws_the_rest(line: Seq<char>, cursor: nat)
    requires
        0 < cursor <= line.len(),
        step_defined(line, cursor, KeyEvent::Backspace),
    ensures
        exists|j: int|
            0 <= j < line.len() && #[trigger] byte_offset(line, j) == cursor - 1 && ({
                let rest = line.remove(j);
                let shown = rest.subrange(j, rest.len() as int);
                edit(line, cursor, KeyEvent::Backspace) == (
                    rest,
                    (cursor - 1) as nat,
                    seq![
                        ActionModel::DeletePrevious,
                        ActionModel::ClearAfterCursor,
                        ActionModel::Text(shown),
                    ] + if cursor - 1 != rest.len() {
                        seq![ActionModel::CursorLeft]
                    } else {
                        Seq::<ActionModel>::empty()
                    },
                    false,
                )
            }),
{
    let c = cursor - 1;
    let j = char_at_byte(line, c);
    assert(0 <= j <= line.len() && byte_offset(line, j) == c);
    if j == line.len() {
        lemma_byte_offset_grows(line, 0, j);
    }
    let rest = line.remove(j);
    assert(rest.take(j) == line.take(j));
    lemma_byte_offset_prefix(rest, line, j);
    lemma_char_at_byte(rest, j);
    lemma_byte_offset_grows(line, 0, j);
}

/// Removes the character whose UTF-8 encoding starts at byte `idx`, when
/// `idx` is less than the number of characters; otherwise does nothing. A
/// byte inside a character is not a place to remove at.
pub fn remove_from_string_with_index(str: &mut Vec<char>, idx: usize)
    requires
        idx < old(str)@.len() ==> is_boundary(old(str)@, idx as int),
    ensures
        idx < old(str)@.len() ==> final(str)@ == old(str)@.remove(char_at_byte(old(str)@, idx as int)),
        idx >= old(str)@.len() ==> final(str)@ == old(str)@,
{
    if idx >= str.len() {
        return;
    }
    match char_index_at_byte(str, idx) {
        Some(k) => {
            proof {
                lemma_byte_offset_grows(old(str)@, k as int, old(str)@.len() as int);
                lemma_byte_offset_grows(old(str)@, 0, old(str)@.len() as int);
                if k == old(str)@.len() {
                    assert(byte_offset(old(str)@, k as int) == idx);
                }
            }
            str.remove(k);
        },
        None => {},
    }
}

/// A line being typed, and the position of the cursor in it.
#[derive(Debug)]
pub struct LineEditor {
    pub line: Vec<char>,
    pub cursor: usize,
}

/// The characters of `chars` from index `from` on, as text.
fn text_from(chars: &Vec<char>, from: usize) -> (r: String)
    requires
        from <= chars@.len(),
    ensures
        r@ == chars@.subrange(from as int, chars@.len() as int),
{
    let mut r = String::new();
    let mut i: usize = from;
    while i < chars.len()
        invariant
            from <= i <= chars@.len(),
            r@ == chars@.subrange(from as int, i as int),
        decreases chars@.len() - i,
    {
        string_push(&mut r, chars[i]);
        assert(chars@.subrange(from as int, i + 1) == chars@.subrange(from as int, i as int).push(chars@[i as int]));
        i = i + 1;
    }
    r
}

impl LineEditor {
    /// The cursor is within the line or just after it.
    pub open spec fn wf(&self) -> bool {
        self.cursor <= self.line@.len()
    }

    /// An empty line.
    pub fn new() -> (r: Self)
        ensures
            r.wf(),
            r.line@ == Seq::<char>::empty(),
            r.cursor == 0,
    {
        LineEditor { line: Vec::new(), cursor: 0 }
    }

    /// The line typed so far.
    pub fn text(&self) -> (r: String)
        ensures
            r@ == self.line@,
    {
        let r = text_from(&self.line, 0);
        assert(self.line@.subrange(0, self.line@.len() as int) == self.line@);
        r
    }

    /// Whether the editor is defined on `key` in this state.
    pub fn can_step(&self, key: KeyEvent) -> (b: bool)
        ensures
            b == step_defined(self.line@, self.cursor as nat, key),
    {
        match key {
            KeyEvent::Left => self.cursor > 0,
            KeyEvent::Backspace => self.cursor == 0 || char_index_at_byte(&self.line, self.cursor - 1).is_some(),
            _ => true,
        }
    }

    /// Applies one key; returns what to show and whether the line is complete.
    pub fn step(&mut self, key: KeyEvent) -> (r: (Vec<TerminalAction>, bool))
        requires
            old(self).wf(),
            step_defined(old(self).line@, old(self).cursor as nat, key),
        ensures
            final(self).wf(),
            (final(self).line@, final(self).cursor as nat, actions_view(r.0@), r.1) == edit(
                old(self).line@,
                old(self).cursor as nat,
                key,
            ),
    {
        let mut actions: Vec<TerminalAction> = Vec::new();
        let ghost l0 = self.line@;
        let ghost c0 = self.cursor as nat;
        match key {
            KeyEvent::Char(c) => {
                if c == '\n' {
                    let mut t = String::new();
                    string_push(&mut t, '\n');
                    string_push(&mut t, '\r');
                    assert(t@ =~= seq!['\n', '\r']);
                    actions.push(TerminalAction::Text(t));
                    assert(actions_view(actions@) =~= edit(l0, c0, key).2);
                    return (actions, true);
                }
                let mut t = String::new();
                string_push(&mut t, c);
                assert(t@ =~= seq![c]);
                actions.push(TerminalAction::Text(t));
                self.line.push(c);
                let len = self.line.len();
                assert(self.cursor < len);
                self.cursor = self.cursor + 1;
            },
            KeyEvent::Left => {
                actions.push(TerminalAction::CursorLeft);
                self.cursor = self.cursor - 1;
            },
            KeyEvent::Right => {
                if self.cursor != self.line.len() {
                    actions.push(TerminalAction::CursorRight);
                    self.cursor = self.cursor + 1;
                }
            },
            KeyEvent::Backspace => {
                if self.cursor != 0 {
                    actions.push(TerminalAction::DeletePrevious);
                    self.cursor = self.cursor - 1;
                    let ghost k = char_at_byte(l0, self.cursor as int);
                    proof {
                        lemma_byte_offset_grows(l0, 0, k);
                        assert(0 <= k <= l0.len() && byte_offset(l0, k) == self.cursor);
                    }
                    remove_from_string_with_index(&mut self.line, self.cursor);
                    actions.push(TerminalAction::ClearAfterCursor);
                    proof {
                        assert(k < l0.len()) by {
                            if k == l0.len() {
                                lemma_byte_offset_grows(l0, 0, k);
                            }
                        }
                        assert(self.line@.take(k) == l0.take(k));
                        lemma_byte_offset_prefix(self.line@, l0, k);
                        lemma_char_at_byte(self.line@, k);
                    }
                    let from = char_index_at_byte(&self.line, self.cursor).unwrap();
                    let rest = text_from(&self.line, from);
                    actions.push(TerminalAction::Text(rest));
                    if self.cursor != self.line.len() {
                        actions.push(TerminalAction::CursorLeft);
                    }
                }
            },
            KeyEvent::Other => {},
        }
        assert(actions_view(actions@) =~= edit(l0, c0, key).2);
        (actions, false)
    }
}

} // verus!
