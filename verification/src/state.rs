//! The persisted paused/active record and its on-disk encoding.
//!
//! The record is one boolean field, `paused`, kept as a small structured
//! text file.  The store works on the whole file contents as a value: the
//! surrounding binary reads and writes the actual file, so the control
//! commands and the scheduler observe each other purely through it.

use vstd::prelude::*;

use crate::errors::DaemonError;

verus! {

/// Whether scheduled reminders are currently suppressed.
#[derive(Clone, Copy, Debug, PartialEq, Eq, Structural)]
pub struct State {
    pub paused: bool,
}

impl State {
    /// The default state: not paused.
    pub fn new() -> (s: State)
        ensures
            s.paused == false,
    {
        State { paused: false }
    }
}

pub open spec fn is_ws(b: u8) -> bool {
    b == 32 || b == 9 || b == 10 || b == 13
}

/// The first position at or after `i` that does not hold whitespace.
pub open spec fn skip_ws(s: Seq<u8>, i: int) -> int
    decreases s.len() - i,
{
    if 0 <= i < s.len() && is_ws(s[i]) {
        skip_ws(s, i + 1)
    } else {
        i
    }
}

/// Whether `pat` occurs in `s` starting at position `i`.
pub open spec fn match_at(s: Seq<u8>, i: int, pat: Seq<u8>) -> bool {
    0 <= i && i + pat.len() <= s.len() && s.subrange(i, i + pat.len()) == pat
}

/// The bytes of the quoted key, `"paused"`.
pub open spec fn key_bytes() -> Seq<u8> {
    seq![34u8, 112u8, 97u8, 117u8, 115u8, 101u8, 100u8, 34u8]
}

/// The bytes of the literal `true`.
pub open spec fn true_bytes() -> Seq<u8> {
    seq![116u8, 114u8, 117u8, 101u8]
}

/// The bytes of the literal `false`.
pub open spec fn false_bytes() -> Seq<u8> {
    seq![102u8, 97u8, 108u8, 115u8, 101u8]
}

/// The encoding written by `StateStore::save`: the one-field record laid
/// out over three lines, the field line indented by two spaces.
pub open spec fn spec_encode_state(paused: bool) -> Seq<u8> {
    seq![123u8, 10u8, 32u8, 32u8] + key_bytes() + seq![58u8, 32u8] + (if paused {
        true_bytes()
    } else {
        false_bytes()
    }) + seq![10u8, 125u8]
}

/// The records accepted when reading the file back: a brace-delimited
/// record with the single key `"paused"` and a boolean value, with any
/// whitespace between the tokens.  Everything else is corrupt.
pub open spec fn spec_parse_state(s: Seq<u8>) -> Option<bool> {
    let i0 = skip_ws(s, 0);
    if match_at(s, i0, seq![123u8]) {
        let i1 = skip_ws(s, i0 + 1);
        if match_at(s, i1, key_bytes()) {
            let i2 = skip_ws(s, i1 + 8);
            if match_at(s, i2, seq![58u8]) {
                let i3 = skip_ws(s, i2 + 1);
                let v = if match_at(s, i3, true_bytes()) {
                    Some((true, i3 + 4))
                } else if match_at(s, i3, false_bytes()) {
                    Some((false, i3 + 5))
                } else {
                    None
                };
                match v {
                    Some((paused, j)) => {
                        let i4 = skip_ws(s, j);
                        if match_at(s, i4, seq![125u8]) && skip_ws(s, i4 + 1) == s.len() {
                            Some(paused)
                        } else {
                            None
                        }
                    },
                    None => None,
                }
            } else {
                None
            }
        } else {
            None
        }
    } else {
        None
    }
}

/// What loading file contents yields: a missing file is the default state,
/// unparsable contents are corrupt (`None`).
pub open spec fn spec_load(contents: Option<Seq<u8>>) -> Option<bool> {
    match contents {
        None => Some(false),
        Some(s) => spec_parse_state(s),
    }
}

/// The whole contents of the state file, or `None` where the file does not
/// exist.  The surrounding binary moves these bytes to and from disk whole,
/// so a reader sees either an old or a new record, never a partial one.
pub struct StateStore {
    pub contents: Option<Vec<u8>>,
}

impl StateStore {
    /// The stored bytes, as the specifications see them.
    pub open spec fn stored(&self) -> Option<Seq<u8>> {
        match self.contents {
            None => None,
            Some(v) => Some(v@),
        }
    }

    pub fn new(contents: Option<Vec<u8>>) -> (st: StateStore)
        ensures
            st.contents == contents,
    {
        StateStore { contents }
    }

    /// Reads the state: a missing file is the default state, contents that
    /// do not parse are a corrupt-state error.
    pub fn load(&self) -> (r: Result<State, DaemonError>)
        ensures
            match spec_load(self.stored()) {
                Some(paused) => r == Ok::<State, DaemonError>(State { paused }),
                None => r == Err::<State, DaemonError>(DaemonError::CorruptState),
            },
    {
        match &self.contents {
            None => Ok(State::new()),
            Some(v) => match parse_state(v) {
                Some(paused) => Ok(State { paused }),
                None => Err(DaemonError::CorruptState),
            },
        }
    }

    /// Writes the state: the stored bytes become exactly the encoding.
    pub fn save(&mut self, state: State)
        ensures
            final(self).stored() == Some(spec_encode_state(state.paused)),
    {
        self.contents = Some(encode_state(state));
    }
}

/// Produces the on-disk encoding of a state.
pub fn encode_state(state: State) -> (r: Vec<u8>)
    ensures
        r@ == spec_encode_state(state.paused),
{
    let mut v: Vec<u8> = Vec::new();
    v.push(123);
    v.push(10);
    v.push(32);
    v.push(32);
    v.push(34);
    v.push(112);
    v.push(97);
    v.push(117);
    v.push(115);
    v.push(101);
    v.push(100);
    v.push(34);
    v.push(58);
    v.push(32);
    if state.paused {
        v.push(116);
        v.push(114);
        v.push(117);
        v.push(101);
    } else {
        v.push(102);
        v.push(97);
        v.push(108);
        v.push(115);
        v.push(101);
    }
    v.push(10);
    v.push(125);
    proof {
        assert(v@ =~= spec_encode_state(state.paused));
    }
    v
}

/// Parses file contents against the accepted grammar.
pub fn parse_state(bytes: &Vec<u8>) -> (r: Option<bool>)
    ensures
        r == spec_parse_state(bytes@),
{
    let ghost s = bytes@;
    let i0 = skip_ws_exec(bytes, 0);
    if !(i0 < bytes.len() && bytes[i0] == 123) {
        proof { lemma_match_single(s, i0 as int, 123); }
        return None;
    }
    proof { lemma_match_single(s, i0 as int, 123); }

    let i1 = skip_ws_exec(bytes, i0 + 1);
    if !match_key(bytes, i1) {
        return None;
    }

    let i2 = skip_ws_exec(bytes, i1 + 8);
    if !(i2 < bytes.len() && bytes[i2] == 58) {
        proof { lemma_match_single(s, i2 as int, 58); }
        return None;
    }
    proof { lemma_match_single(s, i2 as int, 58); }

    let i3 = skip_ws_exec(bytes, i2 + 1);
    let (paused, j) = if match_true(bytes, i3) {
        (true, i3 + 4)
    } else if match_false(bytes, i3) {
        (false, i3 + 5)
    } else {
        return None;
    };

    let i4 = skip_ws_exec(bytes, j);
    if !(i4 < bytes.len() && bytes[i4] == 125) {
        proof { lemma_match_single(s, i4 as int, 125); }
        return None;
    }
    proof { lemma_match_single(s, i4 as int, 125); }

    let end = skip_ws_exec(bytes, i4 + 1);
    if end != bytes.len() {
        return None;
    }
    Some(paused)
}

/// A one-byte pattern matches exactly when that byte stands at `i`.
proof fn lemma_match_single(s: Seq<u8>, i: int, b: u8)
    requires
        0 <= i,
    ensures
        match_at(s, i, seq![b]) <==> (i < s.len() && s[i] == b),
{
    if i < s.len() && s[i] == b {
        assert(s.subrange(i, i + 1) =~= seq![b]);
    }
    if match_at(s, i, seq![b]) {
        assert(s.subrange(i, i + 1)[0] == s[i]);
    }
}

fn skip_ws_exec(bytes: &Vec<u8>, from: usize) -> (r: usize)
    requires
        from <= bytes@.len(),
    ensures
        r == skip_ws(bytes@, from as int),
        from <= r <= bytes@.len(),
    decreases bytes@.len() - from,
{
    let ghost s = bytes@;
    let mut i = from;
    loop
        invariant
            from <= i <= s.len(),
            s == bytes@,
            skip_ws(s, from as int) == skip_ws(s, i as int),
        decreases s.len() - i,
    {
        if i < bytes.len() && is_ws_exec(bytes[i]) {
            i = i + 1;
        } else {
            assert(skip_ws(s, i as int) == i);
            return i;
        }
    }
}

fn is_ws_exec(b: u8) -> (r: bool)
    ensures
        r == is_ws(b),
{
    b == 32 || b == 9 || b == 10 || b == 13
}

fn match_key(bytes: &Vec<u8>, i: usize) -> (r: bool)
    requires
        i <= bytes@.len(),
    ensures
        r == match_at(bytes@, i as int, key_bytes()),
{
    let ghost s = bytes@;
    if bytes.len() - i < 8 {
        return false;
    }
    let r = bytes[i] == 34 && bytes[i + 1] == 112 && bytes[i + 2] == 97 && bytes[i + 3] == 117
        && bytes[i + 4] == 115 && bytes[i + 5] == 101 && bytes[i + 6] == 100 && bytes[i + 7] == 34;
    proof {
        let sub = s.subrange(i as int, i + 8);
        assert(sub[0] == s[i as int] && sub[1] == s[i + 1] && sub[2] == s[i + 2] && sub[3] == s[i
            + 3] && sub[4] == s[i + 4] && sub[5] == s[i + 5] && sub[6] == s[i + 6] && sub[7] == s[i
            + 7]);
        if r {
            assert(sub =~= key_bytes());
        }
    }
    r
}

fn match_true(bytes: &Vec<u8>, i: usize) -> (r: bool)
    requires
        i <= bytes@.len(),
    ensures
        r == match_at(bytes@, i as int, true_bytes()),
{
    let ghost s = bytes@;
    if bytes.len() - i < 4 {
        return false;
    }
    let r = bytes[i] == 116 && bytes[i + 1] == 114 && bytes[i + 2] == 117 && bytes[i + 3] == 101;
    proof {
        let sub = s.subrange(i as int, i + 4);
        assert(sub[0] == s[i as int] && sub[1] == s[i + 1] && sub[2] == s[i + 2] && sub[3] == s[i
            + 3]);
        if r {
            assert(sub =~= true_bytes());
        }
    }
    r
}

fn match_false(bytes: &Vec<u8>, i: usize) -> (r: bool)
    requires
        i <= bytes@.len(),
    ensures
        r == match_at(bytes@, i as int, false_bytes()),
{
    let ghost s = bytes@;
    if bytes.len() - i < 5 {
        return false;
    }
    let r = bytes[i] == 102 && bytes[i + 1] == 97 && bytes[i + 2] == 108 && bytes[i + 3] == 115
        && bytes[i + 4] == 101;
    proof {
        let sub = s.subrange(i as int, i + 5);
        assert(sub[0] == s[i as int] && sub[1] == s[i + 1] && sub[2] == s[i + 2] && sub[3] == s[i
            + 3] && sub[4] == s[i + 4]);
        if r {
            assert(sub =~= false_bytes());
        }
    }
    r
}

/// A record written by `save` always reads back as the state that was
/// saved; in particular, saving `paused = true` and loading immediately
/// yields `paused = true`.
pub proof fn lemma_saved_state_reads_back(paused: bool)
    ensures
        spec_parse_state(spec_encode_state(paused)) == Some(paused),
{
    let s = spec_encode_state(paused);
    assert(s.len() == if paused { 20int } else { 21int });

    assert(!is_ws(s[0]));
    assert(skip_ws(s, 0) == 0);
    assert(s.subrange(0, 1) =~= seq![123u8]);

    assert(is_ws(s[1]) && is_ws(s[2]) && is_ws(s[3]) && !is_ws(s[4]));
    assert(skip_ws(s, 4) == 4);
    assert(skip_ws(s, 3) == 4);
    assert(skip_ws(s, 2) == 4);
    assert(skip_ws(s, 1) == 4);
    assert(s.subrange(4, 12) =~= key_bytes());

    assert(!is_ws(s[12]));
    assert(skip_ws(s, 12) == 12);
    assert(s.subrange(12, 13) =~= seq![58u8]);

    assert(is_ws(s[13]) && !is_ws(s[14]));
    assert(skip_ws(s, 14) == 14);
    assert(skip_ws(s, 13) == 14);

    if paused {
        assert(s.subrange(14, 18) =~= true_bytes());
        assert(is_ws(s[18]) && !is_ws(s[19]));
        assert(skip_ws(s, 19) == 19);
        assert(skip_ws(s, 18) == 19);
        assert(s.subrange(19, 20) =~= seq![125u8]);
        assert(skip_ws(s, 20) == 20);
    } else {
        assert(s[14] == 102);
        assert(true_bytes()[0] == 116);
        assert(s.subrange(14, 18)[0] == s[14]);
        assert(s.subrange(14, 18) != true_bytes());
        assert(s.subrange(14, 19) =~= false_bytes());
        assert(is_ws(s[19]) && !is_ws(s[20]));
        assert(skip_ws(s, 20) == 20);
        assert(skip_ws(s, 19) == 20);
        assert(s.subrange(20, 21) =~= seq![125u8]);
        assert(skip_ws(s, 21) == 21);
    }
}

} // verus!
