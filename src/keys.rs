use vstd::prelude::*;

verus! {

/// Keycodes of the fallback layout.
pub const KEYCODE_A: u8 = 38;
pub const KEYCODE_0: u8 = 10;
pub const KEYCODE_SPACE: u8 = 65;
pub const KEYCODE_MINUS: u8 = 20;
pub const KEYCODE_EQUAL: u8 = 21;
pub const KEYCODE_COMMA: u8 = 51;
pub const KEYCODE_DOT: u8 = 52;
pub const KEYCODE_SLASH: u8 = 53;

pub const KEYSYM_ASCII_START: u32 = 0x20;
pub const KEYSYM_ASCII_END: u32 = 0x7e;
pub const KEYSYM_TAB: u32 = 0xff09;

/// Number of keycodes a map covers.
pub const KEYCODE_COUNT: usize = 256;

/// The character a keysym types: printable ASCII and tab; `None` for
/// every other keysym (backspace, enter, escape, arrows, ...).
pub open spec fn keysym_char(keysym: u32) -> Option<char> {
    if KEYSYM_ASCII_START <= keysym <= KEYSYM_ASCII_END {
        Some((keysym as u8) as char)
    } else if keysym == KEYSYM_TAB {
        Some('\t')
    } else {
        None
    }
}

/// The character a keysym types, if any.
pub fn keysym_to_char(keysym: u32) -> (r: Option<char>)
    ensures
        r == keysym_char(keysym),
{
    if KEYSYM_ASCII_START <= keysym && keysym <= KEYSYM_ASCII_END {
        Some((keysym as u8) as char)
    } else if keysym == KEYSYM_TAB {
        Some('\t')
    } else {
        None
    }
}

/// The characters that the keysyms of `syms` type, in order.
pub open spec fn typed_chars(syms: Seq<u32>) -> Seq<char>
    decreases syms.len(),
{
    if syms.len() == 0 {
        seq![]
    } else {
        let prev = typed_chars(syms.drop_last());
        match keysym_char(syms.last()) {
            Some(c) => prev.push(c),
            None => prev,
        }
    }
}

/// The keysyms of keycode `code` in a server's mapping table: row
/// `code - min` of `per` columns, cut at the table's end.
pub open spec fn keysym_row(min: int, per: int, syms: Seq<u32>, code: int) -> Seq<u32> {
    let from = (code - min) * per;
    let to = if from + per < syms.len() {
        from + per
    } else {
        syms.len() as int
    };
    syms.subrange(from, to)
}

/// What a server's mapping table gives keycode `code`.
pub open spec fn reply_entry(min: int, max: int, per: int, syms: Seq<u32>, code: int) -> Seq<char> {
    if min <= code <= max && (code - min) * per < syms.len() {
        typed_chars(keysym_row(min, per, syms, code))
    } else {
        seq![]
    }
}

/// The built-in layout used when the server gives no mapping.
pub open spec fn fallback_entry(code: int) -> Seq<char> {
    if code == KEYCODE_SPACE {
        seq![' ']
    } else if code == KEYCODE_MINUS {
        seq!['-', '_']
    } else if code == KEYCODE_EQUAL {
        seq!['=', '+']
    } else if code == KEYCODE_COMMA {
        seq![',', '<']
    } else if code == KEYCODE_DOT {
        seq!['.', '>']
    } else if code == KEYCODE_SLASH {
        seq!['/', '?']
    } else if KEYCODE_A <= code < KEYCODE_A + 26 {
        let offset = code - KEYCODE_A;
        let lower = (97 + offset) as u8 as char;
        let upper = (65 + offset) as u8 as char;
        seq![lower, upper]
    } else if KEYCODE_0 <= code < KEYCODE_0 + 10 {
        let offset = code - KEYCODE_0;
        let d = (48 + offset) as u8 as char;
        seq![d, d]
    } else {
        seq![]
    }
}

/// The characters each keycode types: plain first, then shifted.
/// A keycode with no characters is not mapped.
pub struct Keymap {
    pub entries: Vec<Vec<char>>,
}

impl View for Keymap {
    type V = Seq<Seq<char>>;

    open spec fn view(&self) -> Seq<Seq<char>> {
        self.entries@.map_values(|v: Vec<char>| v@)
    }
}

/// The characters of keycode `code` in `map`.
pub open spec fn variations(map: Seq<Seq<char>>, code: int) -> Seq<char> {
    if 0 <= code < map.len() {
        map[code]
    } else {
        seq![]
    }
}

/// The character a key types: the shifted one when shift is held and the
/// key has one, else the plain one.
pub open spec fn typed_char(map: Seq<Seq<char>>, code: int, shift: bool) -> Option<char> {
    let v = variations(map, code);
    if v.len() == 0 {
        None
    } else if shift && v.len() > 1 {
        Some(v[1])
    } else {
        Some(v[0])
    }
}

/// Whether no keycode is mapped.
pub open spec fn map_is_empty(map: Seq<Seq<char>>) -> bool {
    forall|k: int| 0 <= k < map.len() ==> #[trigger] map[k].len() == 0
}

fn empty_entries() -> (r: Vec<Vec<char>>)
    ensures
        r@.len() == KEYCODE_COUNT,
        forall|k: int| 0 <= k < KEYCODE_COUNT ==> (#[trigger] r@[k])@.len() == 0,
{
    let mut r: Vec<Vec<char>> = Vec::new();
    let mut k: usize = 0;
    while k < KEYCODE_COUNT
        invariant
            k <= KEYCODE_COUNT,
            r@.len() == k,
            forall|j: int| 0 <= j < k ==> (#[trigger] r@[j])@.len() == 0,
        decreases KEYCODE_COUNT - k,
    {
        r.push(Vec::new());
        k += 1;
    }
    r
}

fn row_chars(syms: &[u32], from: usize, to: usize) -> (r: Vec<char>)
    requires
        from <= to <= syms@.len(),
    ensures
        r@ == typed_chars(syms@.subrange(from as int, to as int)),
{
    let mut r: Vec<char> = Vec::new();
    let mut i: usize = from;
    while i < to
        invariant
            from <= i <= to <= syms@.len(),
            r@ == typed_chars(syms@.subrange(from as int, i as int)),
        decreases to - i,
    {
        assert(syms@.subrange(from as int, i + 1).drop_last() =~= syms@.subrange(
            from as int,
            i as int,
        ));
        match keysym_to_char(syms[i]) {
            Some(c) => r.push(c),
            None => {},
        }
        i += 1;
    }
    r
}

impl Keymap {
    /// The map that a server's mapping table gives: keycodes `min_keycode`
    /// to `max_keycode`, `keysyms_per_keycode` keysyms each, in `keysyms`.
    pub fn from_reply(
        min_keycode: u8,
        max_keycode: u8,
        keysyms_per_keycode: u8,
        keysyms: &[u32],
    ) -> (r: Keymap)
        ensures
            r@.len() == KEYCODE_COUNT,
            forall|k: int|
                0 <= k < KEYCODE_COUNT ==> #[trigger] r@[k] == reply_entry(
                    min_keycode as int,
                    max_keycode as int,
                    keysyms_per_keycode as int,
                    keysyms@,
                    k,
                ),
    {
        let mut entries = empty_entries();
        let per = keysyms_per_keycode as usize;
        let mut code: usize = 0;
        while code < KEYCODE_COUNT
            invariant
                entries@.len() == KEYCODE_COUNT,
                per == keysyms_per_keycode,
                code <= KEYCODE_COUNT,
                forall|k: int|
                    0 <= k < code ==> (#[trigger] entries@[k])@ == reply_entry(
                        min_keycode as int,
                        max_keycode as int,
                        per as int,
                        keysyms@,
                        k,
                    ),
                forall|k: int| code <= k < KEYCODE_COUNT ==> (#[trigger] entries@[k])@.len() == 0,
            decreases KEYCODE_COUNT - code,
        {
            if min_keycode as usize <= code && code <= max_keycode as usize {
                let index = code - min_keycode as usize;
                assert(index * per <= 255 * 255) by (nonlinear_arith)
                    requires
                        index <= 255,
                        per <= 255,
                ;
                let from = index * per;
                if from < keysyms.len() {
                    let to = if from + per < keysyms.len() {
                        from + per
                    } else {
                        keysyms.len()
                    };
                    let row = row_chars(keysyms, from, to);
                    entries.set(code, row);
                }
            }
            code += 1;
        }
        Keymap { entries }
    }

    /// The built-in layout: letters, digits, space and a few symbols.
    pub fn fallback() -> (r: Keymap)
        ensures
            r@.len() == KEYCODE_COUNT,
            forall|k: int| 0 <= k < KEYCODE_COUNT ==> #[trigger] r@[k] == fallback_entry(k),
    {
        let mut entries = empty_entries();
        let mut i: usize = 0;
        while i < KEYCODE_COUNT
            invariant
                entries@.len() == KEYCODE_COUNT,
                i <= KEYCODE_COUNT,
                forall|k: int| 0 <= k < i ==> (#[trigger] entries@[k])@ == fallback_entry(k),
            decreases KEYCODE_COUNT - i,
        {
            let code = i as u8;
            let e: Vec<char> = if code == KEYCODE_SPACE {
                vec![' ']
            } else if code == KEYCODE_MINUS {
                vec!['-', '_']
            } else if code == KEYCODE_EQUAL {
                vec!['=', '+']
            } else if code == KEYCODE_COMMA {
                vec![',', '<']
            } else if code == KEYCODE_DOT {
                vec!['.', '>']
            } else if code == KEYCODE_SLASH {
                vec!['/', '?']
            } else if KEYCODE_A <= code && code < KEYCODE_A + 26 {
                let offset = code - KEYCODE_A;
                let lower = (97u8 + offset) as char;
                let upper = (65u8 + offset) as char;
                vec![lower, upper]
            } else if KEYCODE_0 <= code && code < KEYCODE_0 + 10 {
                let offset = code - KEYCODE_0;
                let d = (48u8 + offset) as char;
                vec![d, d]
            } else {
                Vec::new()
            };
            assert(e@ =~= fallback_entry(i as int));
            entries.set(i, e);
            i += 1;
        }
        Keymap { entries }
    }

    /// This map, or the built-in layout when this one maps no keycode.
    pub fn or_fallback(self) -> (r: Keymap)
        ensures
            map_is_empty(self@) ==> r@ == Keymap::fallback_view(),
            !map_is_empty(self@) ==> r@ == self@,
    {
        let mut k: usize = 0;
        while k < self.entries.len()
            invariant
                k <= self.entries@.len(),
                forall|j: int| 0 <= j < k ==> #[trigger] self@[j].len() == 0,
            decreases self.entries@.len() - k,
        {
            if self.entries[k].len() > 0 {
                assert(self@[k as int].len() > 0);
                return self;
            }
            k += 1;
        }
        let f = Keymap::fallback();
        assert(f@ =~= Keymap::fallback_view());
        f
    }

    /// The value of the built-in layout.
    pub open spec fn fallback_view() -> Seq<Seq<char>> {
        Seq::new(KEYCODE_COUNT as nat, |k: int| fallback_entry(k))
    }

    /// The character keycode `code` types, by the shift state.
    pub fn typed_char(&self, code: u8, shift: bool) -> (r: Option<char>)
        ensures
            r == typed_char(self@, code as int, shift),
    {
        if (code as usize) >= self.entries.len() {
            return None;
        }
        let v = &self.entries[code as usize];
        assert(v@ == self@[code as int]);
        if v.len() == 0 {
            None
        } else if shift && v.len() > 1 {
            Some(v[1])
        } else {
            Some(v[0])
        }
    }
}

} // verus!
