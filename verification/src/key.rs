//! The key translator: turns one raw input event (key code plus modifier
//! set) into an optional canonical token.
//!
//! A token is a short ASCII string: a bare printable character, or a
//! bracketed name such as `<BS>` or `<c-TAB>`. At most one modifier marker
//! is applied, chosen by the priority shift, then alt, then control; a
//! token that is already an uppercase letter never receives a shift
//! marker. Any token longer than one character is wrapped in angle
//! brackets so that tokens stay unambiguous when concatenated into a
//! sequence.

use vstd::prelude::*;

verus! {

/// One canonical keypress token. Keys are produced only by the
/// translator; equality is token equality.
pub struct Key {
    token: Vec<char>,
}

impl View for Key {
    type V = Seq<char>;

    closed spec fn view(&self) -> Seq<char> {
        self.token@
    }
}

impl Key {
    /// The token characters.
    pub fn token(&self) -> (r: &Vec<char>)
        ensures
            r@ == self@,
    {
        &self.token
    }

    /// Wraps token characters produced inside the crate, by the
    /// translator or by the keymap parser.
    pub(crate) fn from_chars(token: Vec<char>) -> (k: Key)
        ensures
            k@ == token@,
    {
        Key { token }
    }

    /// Token equality.
    pub fn same(&self, other: &Key) -> (r: bool)
        ensures
            r == (self@ == other@),
    {
        chars_eq(&self.token, &other.token)
    }
}

/// Compares two character vectors element for element.
pub fn chars_eq(a: &Vec<char>, b: &Vec<char>) -> (r: bool)
    ensures
        r == (a@ == b@),
{
    if a.len() != b.len() {
        return false;
    }
    let mut i: usize = 0;
    while i < a.len()
        invariant
            i <= a.len(),
            a.len() == b.len(),
            forall|j: int| 0 <= j < i ==> a@[j] == b@[j],
        decreases a.len() - i,
    {
        if a[i] != b[i] {
            return false;
        }
        i += 1;
    }
    proof {
        assert(a@ =~= b@);
    }
    true
}

/// The raw key code of one input event, reduced to the codes the
/// translator can see: the named control keys and a printable character.
/// `Other` stands for every unmapped code (arrows, function keys, and so
/// on), which the translator drops by design.
#[derive(Clone, Copy)]
pub enum KeyCode {
    Backspace,
    Tab,
    Enter,
    Esc,
    Delete,
    Char(char),
    Other,
}

/// The modifier set of one input event.
#[derive(Clone, Copy)]
pub struct Modifiers {
    pub shift: bool,
    pub alt: bool,
    pub ctrl: bool,
}

/// The base token of a key code, before any modifier marker: a named
/// control key spells its name, a printable character stands for itself,
/// except that space is named and `<` becomes `lt` to keep the bracket
/// delimiters unambiguous.
pub open spec fn base_token_spec(code: KeyCode) -> Option<Seq<char>> {
    match code {
        KeyCode::Backspace => Some(seq!['B', 'S']),
        KeyCode::Tab => Some(seq!['T', 'A', 'B']),
        KeyCode::Enter => Some(seq!['E', 'N', 'T', 'E', 'R']),
        KeyCode::Esc => Some(seq!['E', 'S', 'C']),
        KeyCode::Delete => Some(seq!['D', 'E', 'L']),
        KeyCode::Char(c) => if c == ' ' {
            Some(seq!['S', 'P', 'A', 'C', 'E'])
        } else if c == '<' {
            Some(seq!['l', 't'])
        } else if 33 <= c as u32 && c as u32 <= 126 {
            Some(seq![c])
        } else {
            None
        },
        KeyCode::Other => None,
    }
}

/// Whether a base token is a single uppercase letter; such a token already
/// self-encodes the shift and gets no shift marker.
pub open spec fn is_upper_alpha_token(t: Seq<char>) -> bool {
    t.len() == 1 && 65 <= t[0] as u32 && t[0] as u32 <= 90
}

/// The one modifier marker applied to a base token: shift first, then alt,
/// then control; at most one, possibly none.
pub open spec fn marker_spec(t: Seq<char>, mods: Modifiers) -> Seq<char> {
    if mods.shift && !is_upper_alpha_token(t) {
        seq!['s', '-']
    } else if mods.alt {
        seq!['a', '-']
    } else if mods.ctrl {
        seq!['c', '-']
    } else {
        Seq::empty()
    }
}

/// Wraps a multi-character token in angle brackets; a single character
/// stays bare.
pub open spec fn bracketed_spec(t: Seq<char>) -> Seq<char> {
    if t.len() > 1 {
        seq!['<'] + t + seq!['>']
    } else {
        t
    }
}

/// The full token an input event translates to, before validation.
pub open spec fn token_spec(code: KeyCode, mods: Modifiers) -> Option<Seq<char>> {
    match base_token_spec(code) {
        None => None,
        Some(base) => Some(bracketed_spec(marker_spec(base, mods) + base)),
    }
}

/// An uppercase letter carrying an alt or control marker, such as
/// `<a-A>` or `<C-Z>`. Handing such a token to the key-sequence grammar
/// aborts the process (the grammar combines the marker with the shift
/// bit the uppercase letter already carries, into a modifier value it
/// cannot represent), so the translator never consults the grammar about
/// one. The grammar reads the marker letter case-insensitively, so both
/// cases are covered here.
pub open spec fn modified_upper_token(t: Seq<char>) -> bool {
    t.len() == 5 && t[0] == '<' && (t[1] == 'a' || t[1] == 'A' || t[1] == 'c' || t[1] == 'C')
        && t[2] == '-' && 65 <= t[3] as u32 && t[3] as u32 <= 90 && t[4] == '>'
}

/// What the translator returns: the token; tokens the key-sequence
/// grammar cannot be asked about pass through, every other token is
/// returned only where the grammar accepts it.
pub open spec fn translate_spec(code: KeyCode, mods: Modifiers) -> Option<Seq<char>> {
    match base_token_spec(code) {
        None => None,
        Some(base) => {
            let t = bracketed_spec(marker_spec(base, mods) + base);
            if is_upper_alpha_token(base) && (mods.alt || mods.ctrl) {
                Some(t)
            } else if viks_key_ok(t) {
                Some(t)
            } else {
                None
            }
        },
    }
}

pub uninterp spec fn viks_key_ok(token: Seq<char>) -> bool;

/// Relies on viks::Key::new: whether a key token is accepted depends on
/// the token text alone. viks::Key::new aborts on an uppercase letter
/// with an alt or control marker, so those tokens are excluded here.
#[verifier::external_body]
fn viks_accepts(token: &Vec<char>) -> (r: bool)
    requires
        !modified_upper_token(token@),
    ensures
        r == viks_key_ok(token@),
{
    let s: String = token.iter().collect();
    viks::Key::new(&s).is_ok()
}

/// Translates one raw input event to its canonical token, or to nothing
/// for the codes outside the supported set.
pub fn translate_to_key(code: KeyCode, mods: Modifiers) -> (r: Option<Key>)
    ensures
        match r {
            Some(k) => translate_spec(code, mods) == Some(k@),
            None => translate_spec(code, mods) is None,
        },
{
    let mut base: Vec<char> = Vec::new();
    match code {
        KeyCode::Backspace => {
            base.push('B');
            base.push('S');
        },
        KeyCode::Tab => {
            base.push('T');
            base.push('A');
            base.push('B');
        },
        KeyCode::Enter => {
            base.push('E');
            base.push('N');
            base.push('T');
            base.push('E');
            base.push('R');
        },
        KeyCode::Esc => {
            base.push('E');
            base.push('S');
            base.push('C');
        },
        KeyCode::Delete => {
            base.push('D');
            base.push('E');
            base.push('L');
        },
        KeyCode::Char(c) => {
            if c == ' ' {
                base.push('S');
                base.push('P');
                base.push('A');
                base.push('C');
                base.push('E');
            } else if c == '<' {
                base.push('l');
                base.push('t');
            } else {
                let n = c as u32;
                if 33 <= n && n <= 126 {
                    base.push(c);
                } else {
                    return None;
                }
            }
        },
        KeyCode::Other => {
            return None;
        },
    }
    proof {
        assert(base_token_spec(code) =~= Some(base@));
    }
    let ghost base0 = base@;

    let is_upper = base.len() == 1 && {
        let u = base[0] as u32;
        65 <= u && u <= 90
    };
    let mut tok: Vec<char> = Vec::new();
    if mods.shift && !is_upper {
        tok.push('s');
        tok.push('-');
    } else if mods.alt {
        tok.push('a');
        tok.push('-');
    } else if mods.ctrl {
        tok.push('c');
        tok.push('-');
    }
    proof {
        assert(tok@ =~= marker_spec(base0, mods));
    }
    tok.append(&mut base);
    proof {
        assert(tok@ == marker_spec(base0, mods) + base0);
    }

    let out: Vec<char>;
    if tok.len() > 1 {
        let mut wrapped: Vec<char> = Vec::new();
        wrapped.push('<');
        wrapped.append(&mut tok);
        wrapped.push('>');
        proof {
            assert(wrapped@ =~= bracketed_spec(marker_spec(base0, mods) + base0));
        }
        out = wrapped;
    } else {
        out = tok;
    }
    proof {
        assert(token_spec(code, mods) == Some(out@));
    }

    if is_upper && (mods.alt || mods.ctrl) {
        // The grammar cannot be consulted about this token (see
        // `modified_upper_token`); it is in the supported set and passes
        // through.
        return Some(Key { token: out });
    }
    proof {
        if modified_upper_token(out@) {
            let mb = marker_spec(base0, mods) + base0;
            assert(out@ == bracketed_spec(mb));
            assert(mb.len() == 3);
            assert(out@[1] == mb[0] && out@[2] == mb[1] && out@[3] == mb[2]);
            if marker_spec(base0, mods).len() == 2 {
                assert(base0.len() == 1);
                assert(out@[3] == base0[0]);
                assert(is_upper_alpha_token(base0));
                assert(out@[1] == 's' || mods.alt || mods.ctrl);
                assert(false);
            } else {
                assert(mb =~= base0);
                assert(out@[1] == base0[0]);
                assert(false);
            }
        }
    }
    if viks_accepts(&out) {
        Some(Key { token: out })
    } else {
        None
    }
}

/// The translator is deterministic: the token an event translates to is a
/// function of the key code and the modifier set alone, so repeated calls
/// on one event agree.
pub proof fn lemma_translate_deterministic(
    code1: KeyCode,
    mods1: Modifiers,
    code2: KeyCode,
    mods2: Modifiers,
)
    requires
        code1 == code2,
        mods1 == mods2,
    ensures
        translate_spec(code1, mods1) == translate_spec(code2, mods2),
{
}

/// At most one modifier marker is ever applied, chosen by the priority
/// shift, then alt, then control, and an uppercase-letter base token never
/// receives a shift marker.
pub proof fn lemma_marker_policy(t: Seq<char>, mods: Modifiers)
    ensures
        marker_spec(t, mods) == seq!['s', '-'] || marker_spec(t, mods) == seq!['a', '-']
            || marker_spec(t, mods) == seq!['c', '-'] || marker_spec(t, mods)
            == Seq::<char>::empty(),
        is_upper_alpha_token(t) ==> marker_spec(t, mods) != seq!['s', '-'],
        mods.shift && !is_upper_alpha_token(t) ==> marker_spec(t, mods) == seq!['s', '-'],
        (!mods.shift || is_upper_alpha_token(t)) && mods.alt ==> marker_spec(t, mods) == seq![
            'a',
            '-',
        ],
        (!mods.shift || is_upper_alpha_token(t)) && !mods.alt && mods.ctrl ==> marker_spec(t, mods)
            == seq!['c', '-'],
        (!mods.shift || is_upper_alpha_token(t)) && !mods.alt && !mods.ctrl ==> marker_spec(t, mods)
            == Seq::<char>::empty(),
{
    assert(seq!['s', '-'][0] == 's');
    assert(seq!['a', '-'][0] == 'a');
    assert(seq!['c', '-'][0] == 'c');
    assert(seq!['s', '-'].len() == 2);
    assert(Seq::<char>::empty().len() == 0);
}

} // verus!
