use vstd::prelude::*;
use vstd::string::StrSliceExecFns;
use vstd::string::StringExecFns;

verus! {

/// The isomeric state of a nuclide: the ground state, or the excited state
/// with the given index (1 is the first excited state).
#[derive(Debug, Copy, Clone, PartialEq, Eq, Structural)]
pub enum IsomerState {
    Ground,
    Excited(u32),
}

impl IsomerState {
    /// Position of this state on the energy ladder convention: ground is 0,
    /// the i-th excited state is i.
    pub open spec fn index_spec(self) -> nat {
        match self {
            IsomerState::Ground => 0,
            IsomerState::Excited(i) => i as nat,
        }
    }

    pub fn index(&self) -> (r: usize)
        ensures
            r as nat == self.index_spec(),
    {
        match self {
            IsomerState::Ground => 0,
            IsomerState::Excited(i) => *i as usize,
        }
    }
}

/// A parsed nuclide identifier. The symbol is kept in canonical
/// capitalization as one letter and an optional second letter; a mass number
/// of 0 means "the whole element, isotope unspecified".
#[derive(Debug, Copy, Clone, Eq)]
pub struct NuclideIdentifier {
    pub symbol: (char, Option<char>),
    pub isotope: u32,
    pub state: IsomerState,
}

impl PartialEq for NuclideIdentifier {
    fn eq(&self, o: &Self) -> (r: bool) {
        let heads = self.symbol.0 == o.symbol.0;
        let tails = match (self.symbol.1, o.symbol.1) {
            (Option::None, Option::None) => true,
            (Option::Some(a), Option::Some(b)) => a == b,
            _ => false,
        };
        let states = match (self.state, o.state) {
            (IsomerState::Ground, IsomerState::Ground) => true,
            (IsomerState::Excited(a), IsomerState::Excited(b)) => a == b,
            _ => false,
        };
        heads && tails && states && self.isotope == o.isotope
    }
}

impl vstd::std_specs::cmp::PartialEqSpecImpl for NuclideIdentifier {
    open spec fn obeys_eq_spec() -> bool {
        true
    }

    open spec fn eq_spec(&self, o: &NuclideIdentifier) -> bool {
        *self == *o
    }
}

/// Why a token could not be read as a nuclide identifier.
#[derive(Debug, Copy, Clone, PartialEq, Eq, Structural)]
pub enum ParseError {
    /// The leading letters are not an element of the periodic table.
    UnknownElement,
    /// The mass number does not fit the identifier's range.
    MalformedMass,
    /// The trailing state suffix is not one of "", "m", "mN" or "*".
    MalformedState,
}

pub open spec fn is_letter_spec(c: char) -> bool {
    (97 <= c as u32 && c as u32 <= 122) || (65 <= c as u32 && c as u32 <= 90)
}

pub open spec fn is_digit_spec(c: char) -> bool {
    48 <= c as u32 && c as u32 <= 57
}

pub open spec fn digit_val(c: char) -> int {
    c as u32 - 48
}

pub open spec fn letter_pred() -> spec_fn(char) -> bool {
    |c: char| is_letter_spec(c)
}

pub open spec fn digit_pred() -> spec_fn(char) -> bool {
    |c: char| is_digit_spec(c)
}

/// First position at or after `from` where `pred` stops holding.
pub open spec fn run_end(s: Seq<char>, from: int, pred: spec_fn(char) -> bool) -> int
    decreases s.len() - from,
    when 0 <= from <= s.len()
{
    if from >= s.len() || !pred(s[from]) {
        from
    } else {
        run_end(s, from + 1, pred)
    }
}

pub proof fn lemma_run_end(s: Seq<char>, from: int, pred: spec_fn(char) -> bool)
    requires
        0 <= from <= s.len(),
    ensures
        from <= run_end(s, from, pred) <= s.len(),
        forall|m: int| from <= m < run_end(s, from, pred) ==> pred(#[trigger] s[m]),
        run_end(s, from, pred) < s.len() ==> !pred(s[run_end(s, from, pred)]),
    decreases s.len() - from,
{
    if from < s.len() && pred(s[from]) {
        lemma_run_end(s, from + 1, pred);
    }
}

/// Numeric value of a sequence of decimal digit characters.
pub open spec fn dec_value(s: Seq<char>) -> int
    decreases s.len(),
{
    if s.len() == 0 {
        0
    } else {
        dec_value(s.drop_last()) * 10 + digit_val(s.last())
    }
}

/// Reading of the state suffix that begins at position `p`: nothing for the
/// ground state, "*" or "m" for the first excited state, "mN" for excited
/// state N ("m0" names the ground state explicitly).
pub open spec fn state_spec(s: Seq<char>, p: int) -> Result<IsomerState, ParseError> {
    if p == s.len() {
        Ok(IsomerState::Ground)
    } else if s[p] == '*' && p + 1 == s.len() {
        Ok(IsomerState::Excited(1))
    } else if s[p] == 'm' || s[p] == 'M' {
        let sd = run_end(s, p + 1, digit_pred());
        if sd != s.len() {
            Err(ParseError::MalformedState)
        } else if sd == p + 1 {
            Ok(IsomerState::Excited(1))
        } else {
            let v = dec_value(s.subrange(p + 1, sd));
            if v > u32::MAX as int {
                Err(ParseError::MalformedState)
            } else if v == 0 {
                Ok(IsomerState::Ground)
            } else {
                Ok(IsomerState::Excited(v as u32))
            }
        }
    } else {
        Err(ParseError::MalformedState)
    }
}

/// Reading of a whole identifier token: a case-insensitive element symbol,
/// an optional mass number, and an optional state suffix.
pub open spec fn parse_spec(s: Seq<char>) -> Result<NuclideIdentifier, ParseError> {
    let le = run_end(s, 0, letter_pred());
    if le == 0 || le > 2 {
        Err(ParseError::UnknownElement)
    } else {
        let sym = if le == 1 {
            canonical_symbol_spec(lower_spec(s[0]), None)
        } else {
            canonical_symbol_spec(lower_spec(s[0]), Some(lower_spec(s[1])))
        };
        match sym {
            Option::None => Err(ParseError::UnknownElement),
            Option::Some(sympair) => {
                let de = run_end(s, le, digit_pred());
                let mval = dec_value(s.subrange(le, de));
                if mval > u32::MAX as int {
                    Err(ParseError::MalformedMass)
                } else {
                    match state_spec(s, de) {
                        Err(e) => Err(e),
                        Ok(st) => Ok(
                            NuclideIdentifier {
                                symbol: sympair,
                                isotope: mval as u32,
                                state: st,
                            },
                        ),
                    }
                }
            },
        }
    }
}

/// Walk to the end of the letter run that starts at `from`.
fn letter_run_end(s: &str, from: usize) -> (r: usize)
    requires
        from as int <= s@.len(),
    ensures
        r as int == run_end(s@, from as int, letter_pred()),
        from <= r,
        r as int <= s@.len(),
{
    let n = s.unicode_len();
    let mut i: usize = from;
    while i < n && is_letter(s.get_char(i))
        invariant
            from <= i <= n,
            n as int == s@.len(),
            run_end(s@, from as int, letter_pred()) == run_end(s@, i as int, letter_pred()),
        decreases n - i,
    {
        i += 1;
    }
    proof {
        lemma_run_end(s@, from as int, letter_pred());
    }
    i
}

fn is_letter(c: char) -> (r: bool)
    ensures
        r == is_letter_spec(c),
{
    let u = c as u32;
    (97 <= u && u <= 122) || (65 <= u && u <= 90)
}

fn is_digit(c: char) -> (r: bool)
    ensures
        r == is_digit_spec(c),
{
    let u = c as u32;
    48 <= u && u <= 57
}

/// Walk to the end of the digit run that starts at `from` and accumulate its
/// value; the flag reports that the value does not fit a mass number.
fn digit_run_scan(s: &str, from: usize) -> (r: (usize, u64, bool))
    requires
        from as int <= s@.len(),
    ensures
        r.0 as int == run_end(s@, from as int, digit_pred()),
        from <= r.0,
        r.0 as int <= s@.len(),
        r.2 <==> dec_value(s@.subrange(from as int, r.0 as int)) > u32::MAX as int,
        !r.2 ==> r.1 as int == dec_value(s@.subrange(from as int, r.0 as int)),
{
    let n = s.unicode_len();
    let mut i: usize = from;
    let mut val: u64 = 0;
    let mut over: bool = false;
    proof {
        assert(s@.subrange(from as int, from as int) =~= Seq::<char>::empty());
    }
    while i < n && is_digit(s.get_char(i))
        invariant
            from <= i <= n,
            n as int == s@.len(),
            run_end(s@, from as int, digit_pred()) == run_end(s@, i as int, digit_pred()),
            over <==> dec_value(s@.subrange(from as int, i as int)) > u32::MAX as int,
            !over ==> val as int == dec_value(s@.subrange(from as int, i as int)),
            !over ==> val <= u32::MAX as u64,
        decreases n - i,
    {
        let c = s.get_char(i);
        let d = (c as u32) - 48;
        proof {
            let pre = s@.subrange(from as int, i as int);
            let pre1 = s@.subrange(from as int, (i + 1) as int);
            assert(pre1.drop_last() =~= pre);
            assert(pre1.last() == s@[i as int]);
        }
        if !over {
            let next = val * 10 + (d as u64);
            if next > (u32::MAX as u64) {
                over = true;
            } else {
                val = next;
            }
        }
        i += 1;
    }
    proof {
        lemma_run_end(s@, from as int, digit_pred());
    }
    (i, val, over)
}

/// Parse one user token into a nuclide identifier.
///
/// The token is leading letters (the element symbol, any capitalization),
/// then an optional mass number, then an optional isomeric-state suffix:
/// "", "m", "m0", "m1", ..., or "*". A token that does not fit this shape or
/// names no known element is rejected.
pub fn parse_nuclide(token: &str) -> (r: Result<NuclideIdentifier, ParseError>)
    ensures
        r == parse_spec(token@),
{
    let le = letter_run_end(token, 0);
    if le == 0 || le > 2 {
        return Err(ParseError::UnknownElement);
    }
    let c1 = to_lower(token.get_char(0));
    let sym = if le == 1 {
        canonical_symbol(c1, Option::None)
    } else {
        let c2 = to_lower(token.get_char(1));
        canonical_symbol(c1, Option::Some(c2))
    };
    let sympair = match sym {
        Option::None => {
            return Err(ParseError::UnknownElement);
        },
        Option::Some(p) => p,
    };
    let scan = digit_run_scan(token, le);
    let de = scan.0;
    let mval = scan.1;
    if scan.2 {
        return Err(ParseError::MalformedMass);
    }
    let st = match parse_state(token, de) {
        Err(e) => {
            return Err(e);
        },
        Ok(st) => st,
    };
    Ok(NuclideIdentifier { symbol: sympair, isotope: mval as u32, state: st })
}

/// Parse the state suffix that starts at position `p`.
fn parse_state(token: &str, p: usize) -> (r: Result<IsomerState, ParseError>)
    requires
        p as int <= token@.len(),
    ensures
        r == state_spec(token@, p as int),
{
    let n = token.unicode_len();
    if p == n {
        return Ok(IsomerState::Ground);
    }
    let c = token.get_char(p);
    if c == '*' && p + 1 == n {
        return Ok(IsomerState::Excited(1));
    }
    if c == 'm' || c == 'M' {
        let scan = digit_run_scan(token, p + 1);
        if scan.0 != n {
            return Err(ParseError::MalformedState);
        }
        if scan.0 == p + 1 {
            return Ok(IsomerState::Excited(1));
        }
        if scan.2 {
            return Err(ParseError::MalformedState);
        }
        if scan.1 == 0 {
            return Ok(IsomerState::Ground);
        }
        return Ok(IsomerState::Excited(scan.1 as u32));
    }
    Err(ParseError::MalformedState)
}

/// A letter as a one-character sequence; other characters give nothing.
pub open spec fn char_seq(c: char) -> Seq<char> {
    if is_letter_spec(c) {
        seq![c]
    } else {
        Seq::<char>::empty()
    }
}

pub open spec fn digit_char(d: nat) -> char {
    if d == 0 {
        '0'
    } else if d == 1 {
        '1'
    } else if d == 2 {
        '2'
    } else if d == 3 {
        '3'
    } else if d == 4 {
        '4'
    } else if d == 5 {
        '5'
    } else if d == 6 {
        '6'
    } else if d == 7 {
        '7'
    } else if d == 8 {
        '8'
    } else {
        '9'
    }
}

/// Decimal digits of `n`, most significant first, with no leading zeros.
pub open spec fn dec_seq(n: nat) -> Seq<char>
    decreases n,
{
    if n < 10 {
        seq![digit_char(n)]
    } else {
        dec_seq(n / 10).push(digit_char(n % 10))
    }
}

/// Canonical name without the state: the symbol, then the mass number (left
/// off for a whole-element identifier).
pub open spec fn name_seq(id: NuclideIdentifier) -> Seq<char> {
    char_seq(id.symbol.0) + (match id.symbol.1 {
        Option::None => Seq::<char>::empty(),
        Option::Some(c) => char_seq(c),
    }) + (if id.isotope == 0 {
        Seq::<char>::empty()
    } else {
        dec_seq(id.isotope as nat)
    })
}

/// Canonical display name: the name, then "m" and the excited-state index for
/// an excited state.
pub open spec fn name_state_seq(id: NuclideIdentifier) -> Seq<char> {
    name_seq(id) + (match id.state {
        IsomerState::Ground => Seq::<char>::empty(),
        IsomerState::Excited(i) => seq!['m'] + dec_seq(i as nat),
    })
}

fn push_digits(out: &mut String, n: u32)
    ensures
        final(out)@ == old(out)@ + dec_seq(n as nat),
    decreases n,
{
    if n < 10 {
        let d = digit_str(n);
        out.append(d);
        proof {
            assert(out@ =~= old(out)@ + dec_seq(n as nat));
        }
    } else {
        push_digits(out, n / 10);
        let d = digit_str(n % 10);
        out.append(d);
        proof {
            assert(out@ =~= old(out)@ + dec_seq(n as nat));
        }
    }
}

impl NuclideIdentifier {
    /// Canonical name of the nuclide without its state.
    pub fn name(&self) -> (r: String)
        ensures
            r@ == name_seq(*self),
    {
        let mut out = String::new();
        let h = char_str(self.symbol.0);
        out.append(h);
        if let Option::Some(c) = self.symbol.1 {
            let t = char_str(c);
            out.append(t);
        }
        if self.isotope != 0 {
            push_digits(&mut out, self.isotope);
        }
        proof {
            assert(out@ =~= name_seq(*self));
        }
        out
    }

    /// Canonical display name of the nuclide, state suffix included.
    pub fn name_with_state(&self) -> (r: String)
        ensures
            r@ == name_state_seq(*self),
    {
        let mut out = self.name();
        if let IsomerState::Excited(i) = self.state {
            proof {
                reveal_strlit("m");
                assert("m"@ =~= seq!['m']);
            }
            out.append("m");
            push_digits(&mut out, i);
        }
        proof {
            assert(out@ =~= name_state_seq(*self));
        }
        out
    }
}

fn digit_str(d: u32) -> (r: &'static str)
    requires
        d < 10,
    ensures
        r@ == seq![digit_char(d as nat)],
{
    match d {
        0 => {
            proof {
                reveal_strlit("0");
                assert("0"@ =~= seq![digit_char(0)]);
            }
            "0"
        },
        1 => {
            proof {
                reveal_strlit("1");
                assert("1"@ =~= seq![digit_char(1)]);
            }
            "1"
        },
        2 => {
            proof {
                reveal_strlit("2");
                assert("2"@ =~= seq![digit_char(2)]);
            }
            "2"
        },
        3 => {
            proof {
                reveal_strlit("3");
                assert("3"@ =~= seq![digit_char(3)]);
            }
            "3"
        },
        4 => {
            proof {
                reveal_strlit("4");
                assert("4"@ =~= seq![digit_char(4)]);
            }
            "4"
        },
        5 => {
            proof {
                reveal_strlit("5");
                assert("5"@ =~= seq![digit_char(5)]);
            }
            "5"
        },
        6 => {
            proof {
                reveal_strlit("6");
                assert("6"@ =~= seq![digit_char(6)]);
            }
            "6"
        },
        7 => {
            proof {
                reveal_strlit("7");
                assert("7"@ =~= seq![digit_char(7)]);
            }
            "7"
        },
        8 => {
            proof {
                reveal_strlit("8");
                assert("8"@ =~= seq![digit_char(8)]);
            }
            "8"
        },
        _ => {
            proof {
                reveal_strlit("9");
                assert("9"@ =~= seq![digit_char(9)]);
            }
            "9"
        },
    }
}

/// One letter as a string slice; any other character gives the empty slice.
fn char_str(c: char) -> (r: &'static str)
    ensures
        r@ == char_seq(c),
{
    match c {
        'A' => {
            proof {
                reveal_strlit("A");
                assert("A"@ =~= seq!['A']);
            }
            "A"
        },
        'B' => {
            proof {
                reveal_strlit("B");
                assert("B"@ =~= seq!['B']);
            }
            "B"
        },
        'C' => {
            proof {
                reveal_strlit("C");
                assert("C"@ =~= seq!['C']);
            }
            "C"
        },
        'D' => {
            proof {
                reveal_strlit("D");
                assert("D"@ =~= seq!['D']);
            }
            "D"
        },
        'E' => {
            proof {
                reveal_strlit("E");
                assert("E"@ =~= seq!['E']);
            }
            "E"
        },
        'F' => {
            proof {
                reveal_strlit("F");
                assert("F"@ =~= seq!['F']);
            }
            "F"
        },
        'G' => {
            proof {
                reveal_strlit("G");
                assert("G"@ =~= seq!['G']);
            }
            "G"
        },
        'H' => {
            proof {
                reveal_strlit("H");
                assert("H"@ =~= seq!['H']);
            }
            "H"
        },
        'I' => {
            proof {
                reveal_strlit("I");
                assert("I"@ =~= seq!['I']);
            }
            "I"
        },
        'J' => {
            proof {
                reveal_strlit("J");
                assert("J"@ =~= seq!['J']);
            }
            "J"
        },
        'K' => {
            proof {
                reveal_strlit("K");
                assert("K"@ =~= seq!['K']);
            }
            "K"
        },
        'L' => {
            proof {
                reveal_strlit("L");
                assert("L"@ =~= seq!['L']);
            }
            "L"
        },
        'M' => {
            proof {
                reveal_strlit("M");
                assert("M"@ =~= seq!['M']);
            }
            "M"
        },
        'N' => {
            proof {
                reveal_strlit("N");
                assert("N"@ =~= seq!['N']);
            }
            "N"
        },
        'O' => {
            proof {
                reveal_strlit("O");
                assert("O"@ =~= seq!['O']);
            }
            "O"
        },
        'P' => {
            proof {
                reveal_strlit("P");
                assert("P"@ =~= seq!['P']);
            }
            "P"
        },
        'Q' => {
            proof {
                reveal_strlit("Q");
                assert("Q"@ =~= seq!['Q']);
            }
            "Q"
        },
        'R' => {
            proof {
                reveal_strlit("R");
                assert("R"@ =~= seq!['R']);
            }
            "R"
        },
        'S' => {
            proof {
                reveal_strlit("S");
                assert("S"@ =~= seq!['S']);
            }
            "S"
        },
        'T' => {
            proof {
                reveal_strlit("T");
                assert("T"@ =~= seq!['T']);
            }
            "T"
        },
        'U' => {
            proof {
                reveal_strlit("U");
                assert("U"@ =~= seq!['U']);
            }
            "U"
        },
        'V' => {
            proof {
                reveal_strlit("V");
                assert("V"@ =~= seq!['V']);
            }
            "V"
        },
        'W' => {
            proof {
                reveal_strlit("W");
                assert("W"@ =~= seq!['W']);
            }
            "W"
        },
        'X' => {
            proof {
                reveal_strlit("X");
                assert("X"@ =~= seq!['X']);
            }
            "X"
        },
        'Y' => {
            proof {
                reveal_strlit("Y");
                assert("Y"@ =~= seq!['Y']);
            }
            "Y"
        },
        'Z' => {
            proof {
                reveal_strlit("Z");
                assert("Z"@ =~= seq!['Z']);
            }
            "Z"
        },
        'a' => {
            proof {
                reveal_strlit("a");
                assert("a"@ =~= seq!['a']);
            }
            "a"
        },
        'b' => {
            proof {
                reveal_strlit("b");
                assert("b"@ =~= seq!['b']);
            }
            "b"
        },
        'c' => {
            proof {
                reveal_strlit("c");
                assert("c"@ =~= seq!['c']);
            }
            "c"
        },
        'd' => {
            proof {
                reveal_strlit("d");
                assert("d"@ =~= seq!['d']);
            }
            "d"
        },
        'e' => {
            proof {
                reveal_strlit("e");
                assert("e"@ =~= seq!['e']);
            }
            "e"
        },
        'f' => {
            proof {
                reveal_strlit("f");
                assert("f"@ =~= seq!['f']);
            }
            "f"
        },
        'g' => {
            proof {
                reveal_strlit("g");
                assert("g"@ =~= seq!['g']);
            }
            "g"
        },
        'h' => {
            proof {
                reveal_strlit("h");
                assert("h"@ =~= seq!['h']);
            }
            "h"
        },
        'i' => {
            proof {
                reveal_strlit("i");
                assert("i"@ =~= seq!['i']);
            }
            "i"
        },
        'j' => {
            proof {
                reveal_strlit("j");
                assert("j"@ =~= seq!['j']);
            }
            "j"
        },
        'k' => {
            proof {
                reveal_strlit("k");
                assert("k"@ =~= seq!['k']);
            }
            "k"
        },
        'l' => {
            proof {
                reveal_strlit("l");
                assert("l"@ =~= seq!['l']);
            }
            "l"
        },
        'm' => {
            proof {
                reveal_strlit("m");
                assert("m"@ =~= seq!['m']);
            }
            "m"
        },
        'n' => {
            proof {
                reveal_strlit("n");
                assert("n"@ =~= seq!['n']);
            }
            "n"
        },
        'o' => {
            proof {
                reveal_strlit("o");
                assert("o"@ =~= seq!['o']);
            }
            "o"
        },
        'p' => {
            proof {
                reveal_strlit("p");
                assert("p"@ =~= seq!['p']);
            }
            "p"
        },
        'q' => {
            proof {
                reveal_strlit("q");
                assert("q"@ =~= seq!['q']);
            }
            "q"
        },
        'r' => {
            proof {
                reveal_strlit("r");
                assert("r"@ =~= seq!['r']);
            }
            "r"
        },
        's' => {
            proof {
                reveal_strlit("s");
                assert("s"@ =~= seq!['s']);
            }
            "s"
        },
        't' => {
            proof {
                reveal_strlit("t");
                assert("t"@ =~= seq!['t']);
            }
            "t"
        },
        'u' => {
            proof {
                reveal_strlit("u");
                assert("u"@ =~= seq!['u']);
            }
            "u"
        },
        'v' => {
            proof {
                reveal_strlit("v");
                assert("v"@ =~= seq!['v']);
            }
            "v"
        },
        'w' => {
            proof {
                reveal_strlit("w");
                assert("w"@ =~= seq!['w']);
            }
            "w"
        },
        'x' => {
            proof {
                reveal_strlit("x");
                assert("x"@ =~= seq!['x']);
            }
            "x"
        },
        'y' => {
            proof {
                reveal_strlit("y");
                assert("y"@ =~= seq!['y']);
            }
            "y"
        },
        'z' => {
            proof {
                reveal_strlit("z");
                assert("z"@ =~= seq!['z']);
            }
            "z"
        },
        _ => {
            proof {
                reveal_strlit("");
                assert(""@ =~= Seq::<char>::empty());
            }
            ""
        },
    }
}

pub open spec fn canonical_symbol_spec(l1: char, l2: Option<char>) -> Option<(char, Option<char>)> {
    match (l1, l2) {
        ('h', Option::None) => Option::Some(('H', Option::None)),
        ('h', Option::Some('e')) => Option::Some(('H', Option::Some('e'))),
        ('l', Option::Some('i')) => Option::Some(('L', Option::Some('i'))),
        ('b', Option::Some('e')) => Option::Some(('B', Option::Some('e'))),
        ('b', Option::None) => Option::Some(('B', Option::None)),
        ('c', Option::None) => Option::Some(('C', Option::None)),
        ('n', Option::None) => Option::Some(('N', Option::None)),
        ('o', Option::None) => Option::Some(('O', Option::None)),
        ('f', Option::None) => Option::Some(('F', Option::None)),
        ('n', Option::Some('e')) => Option::Some(('N', Option::Some('e'))),
        ('n', Option::Some('a')) => Option::Some(('N', Option::Some('a'))),
        ('m', Option::Some('g')) => Option::Some(('M', Option::Some('g'))),
        ('a', Option::Some('l')) => Option::Some(('A', Option::Some('l'))),
        ('s', Option::Some('i')) => Option::Some(('S', Option::Some('i'))),
        ('p', Option::None) => Option::Some(('P', Option::None)),
        ('s', Option::None) => Option::Some(('S', Option::None)),
        ('c', Option::Some('l')) => Option::Some(('C', Option::Some('l'))),
        ('a', Option::Some('r')) => Option::Some(('A', Option::Some('r'))),
        ('k', Option::None) => Option::Some(('K', Option::None)),
        ('c', Option::Some('a')) => Option::Some(('C', Option::Some('a'))),
        ('s', Option::Some('c')) => Option::Some(('S', Option::Some('c'))),
        ('t', Option::Some('i')) => Option::Some(('T', Option::Some('i'))),
        ('v', Option::None) => Option::Some(('V', Option::None)),
        ('c', Option::Some('r')) => Option::Some(('C', Option::Some('r'))),
        ('m', Option::Some('n')) => Option::Some(('M', Option::Some('n'))),
        ('f', Option::Some('e')) => Option::Some(('F', Option::Some('e'))),
        ('c', Option::Some('o')) => Option::Some(('C', Option::Some('o'))),
        ('n', Option::Some('i')) => Option::Some(('N', Option::Some('i'))),
        ('c', Option::Some('u')) => Option::Some(('C', Option::Some('u'))),
        ('z', Option::Some('n')) => Option::Some(('Z', Option::Some('n'))),
        ('g', Option::Some('a')) => Option::Some(('G', Option::Some('a'))),
        ('g', Option::Some('e')) => Option::Some(('G', Option::Some('e'))),
        ('a', Option::Some('s')) => Option::Some(('A', Option::Some('s'))),
        ('s', Option::Some('e')) => Option::Some(('S', Option::Some('e'))),
        ('b', Option::Some('r')) => Option::Some(('B', Option::Some('r'))),
        ('k', Option::Some('r')) => Option::Some(('K', Option::Some('r'))),
        ('r', Option::Some('b')) => Option::Some(('R', Option::Some('b'))),
        ('s', Option::Some('r')) => Option::Some(('S', Option::Some('r'))),
        ('y', Option::None) => Option::Some(('Y', Option::None)),
        ('z', Option::Some('r')) => Option::Some(('Z', Option::Some('r'))),
        ('n', Option::Some('b')) => Option::Some(('N', Option::Some('b'))),
        ('m', Option::Some('o')) => Option::Some(('M', Option::Some('o'))),
        ('t', Option::Some('c')) => Option::Some(('T', Option::Some('c'))),
        ('r', Option::Some('u')) => Option::Some(('R', Option::Some('u'))),
        ('r', Option::Some('h')) => Option::Some(('R', Option::Some('h'))),
        ('p', Option::Some('d')) => Option::Some(('P', Option::Some('d'))),
        ('a', Option::Some('g')) => Option::Some(('A', Option::Some('g'))),
        ('c', Option::Some('d')) => Option::Some(('C', Option::Some('d'))),
        ('i', Option::Some('n')) => Option::Some(('I', Option::Some('n'))),
        ('s', Option::Some('n')) => Option::Some(('S', Option::Some('n'))),
        ('s', Option::Some('b')) => Option::Some(('S', Option::Some('b'))),
        ('t', Option::Some('e')) => Option::Some(('T', Option::Some('e'))),
        ('i', Option::None) => Option::Some(('I', Option::None)),
        ('x', Option::Some('e')) => Option::Some(('X', Option::Some('e'))),
        ('c', Option::Some('s')) => Option::Some(('C', Option::Some('s'))),
        ('b', Option::Some('a')) => Option::Some(('B', Option::Some('a'))),
        ('l', Option::Some('a')) => Option::Some(('L', Option::Some('a'))),
        ('c', Option::Some('e')) => Option::Some(('C', Option::Some('e'))),
        ('p', Option::Some('r')) => Option::Some(('P', Option::Some('r'))),
        ('n', Option::Some('d')) => Option::Some(('N', Option::Some('d'))),
        ('p', Option::Some('m')) => Option::Some(('P', Option::Some('m'))),
        ('s', Option::Some('m')) => Option::Some(('S', Option::Some('m'))),
        ('e', Option::Some('u')) => Option::Some(('E', Option::Some('u'))),
        ('g', Option::Some('d')) => Option::Some(('G', Option::Some('d'))),
        ('t', Option::Some('b')) => Option::Some(('T', Option::Some('b'))),
        ('d', Option::Some('y')) => Option::Some(('D', Option::Some('y'))),
        ('h', Option::Some('o')) => Option::Some(('H', Option::Some('o'))),
        ('e', Option::Some('r')) => Option::Some(('E', Option::Some('r'))),
        ('t', Option::Some('m')) => Option::Some(('T', Option::Some('m'))),
        ('y', Option::Some('b')) => Option::Some(('Y', Option::Some('b'))),
        ('l', Option::Some('u')) => Option::Some(('L', Option::Some('u'))),
        ('h', Option::Some('f')) => Option::Some(('H', Option::Some('f'))),
        ('t', Option::Some('a')) => Option::Some(('T', Option::Some('a'))),
        ('w', Option::None) => Option::Some(('W', Option::None)),
        ('r', Option::Some('e')) => Option::Some(('R', Option::Some('e'))),
        ('o', Option::Some('s')) => Option::Some(('O', Option::Some('s'))),
        ('i', Option::Some('r')) => Option::Some(('I', Option::Some('r'))),
        ('p', Option::Some('t')) => Option::Some(('P', Option::Some('t'))),
        ('a', Option::Some('u')) => Option::Some(('A', Option::Some('u'))),
        ('h', Option::Some('g')) => Option::Some(('H', Option::Some('g'))),
        ('t', Option::Some('l')) => Option::Some(('T', Option::Some('l'))),
        ('p', Option::Some('b')) => Option::Some(('P', Option::Some('b'))),
        ('b', Option::Some('i')) => Option::Some(('B', Option::Some('i'))),
        ('p', Option::Some('o')) => Option::Some(('P', Option::Some('o'))),
        ('a', Option::Some('t')) => Option::Some(('A', Option::Some('t'))),
        ('r', Option::Some('n')) => Option::Some(('R', Option::Some('n'))),
        ('f', Option::Some('r')) => Option::Some(('F', Option::Some('r'))),
        ('r', Option::Some('a')) => Option::Some(('R', Option::Some('a'))),
        ('a', Option::Some('c')) => Option::Some(('A', Option::Some('c'))),
        ('t', Option::Some('h')) => Option::Some(('T', Option::Some('h'))),
        ('p', Option::Some('a')) => Option::Some(('P', Option::Some('a'))),
        ('u', Option::None) => Option::Some(('U', Option::None)),
        ('n', Option::Some('p')) => Option::Some(('N', Option::Some('p'))),
        ('p', Option::Some('u')) => Option::Some(('P', Option::Some('u'))),
        ('a', Option::Some('m')) => Option::Some(('A', Option::Some('m'))),
        ('c', Option::Some('m')) => Option::Some(('C', Option::Some('m'))),
        ('b', Option::Some('k')) => Option::Some(('B', Option::Some('k'))),
        ('c', Option::Some('f')) => Option::Some(('C', Option::Some('f'))),
        ('e', Option::Some('s')) => Option::Some(('E', Option::Some('s'))),
        ('f', Option::Some('m')) => Option::Some(('F', Option::Some('m'))),
        ('m', Option::Some('d')) => Option::Some(('M', Option::Some('d'))),
        ('n', Option::Some('o')) => Option::Some(('N', Option::Some('o'))),
        ('l', Option::Some('r')) => Option::Some(('L', Option::Some('r'))),
        ('r', Option::Some('f')) => Option::Some(('R', Option::Some('f'))),
        ('d', Option::Some('b')) => Option::Some(('D', Option::Some('b'))),
        ('s', Option::Some('g')) => Option::Some(('S', Option::Some('g'))),
        ('b', Option::Some('h')) => Option::Some(('B', Option::Some('h'))),
        ('h', Option::Some('s')) => Option::Some(('H', Option::Some('s'))),
        ('m', Option::Some('t')) => Option::Some(('M', Option::Some('t'))),
        ('d', Option::Some('s')) => Option::Some(('D', Option::Some('s'))),
        ('r', Option::Some('g')) => Option::Some(('R', Option::Some('g'))),
        ('c', Option::Some('n')) => Option::Some(('C', Option::Some('n'))),
        ('n', Option::Some('h')) => Option::Some(('N', Option::Some('h'))),
        ('f', Option::Some('l')) => Option::Some(('F', Option::Some('l'))),
        ('m', Option::Some('c')) => Option::Some(('M', Option::Some('c'))),
        ('l', Option::Some('v')) => Option::Some(('L', Option::Some('v'))),
        ('t', Option::Some('s')) => Option::Some(('T', Option::Some('s'))),
        ('o', Option::Some('g')) => Option::Some(('O', Option::Some('g'))),
        _ => Option::None,
    }
}

/// Look a lower-cased one- or two-letter symbol up in the periodic table and
/// return its canonical capitalization.
fn canonical_symbol(l1: char, l2: Option<char>) -> (r: Option<(char, Option<char>)>)
    ensures
        r == canonical_symbol_spec(l1, l2),
{
    match (l1, l2) {
        ('h', Option::None) => Option::Some(('H', Option::None)),
        ('h', Option::Some('e')) => Option::Some(('H', Option::Some('e'))),
        ('l', Option::Some('i')) => Option::Some(('L', Option::Some('i'))),
        ('b', Option::Some('e')) => Option::Some(('B', Option::Some('e'))),
        ('b', Option::None) => Option::Some(('B', Option::None)),
        ('c', Option::None) => Option::Some(('C', Option::None)),
        ('n', Option::None) => Option::Some(('N', Option::None)),
        ('o', Option::None) => Option::Some(('O', Option::None)),
        ('f', Option::None) => Option::Some(('F', Option::None)),
        ('n', Option::Some('e')) => Option::Some(('N', Option::Some('e'))),
        ('n', Option::Some('a')) => Option::Some(('N', Option::Some('a'))),
        ('m', Option::Some('g')) => Option::Some(('M', Option::Some('g'))),
        ('a', Option::Some('l')) => Option::Some(('A', Option::Some('l'))),
        ('s', Option::Some('i')) => Option::Some(('S', Option::Some('i'))),
        ('p', Option::None) => Option::Some(('P', Option::None)),
        ('s', Option::None) => Option::Some(('S', Option::None)),
        ('c', Option::Some('l')) => Option::Some(('C', Option::Some('l'))),
        ('a', Option::Some('r')) => Option::Some(('A', Option::Some('r'))),
        ('k', Option::None) => Option::Some(('K', Option::None)),
        ('c', Option::Some('a')) => Option::Some(('C', Option::Some('a'))),
        ('s', Option::Some('c')) => Option::Some(('S', Option::Some('c'))),
        ('t', Option::Some('i')) => Option::Some(('T', Option::Some('i'))),
        ('v', Option::None) => Option::Some(('V', Option::None)),
        ('c', Option::Some('r')) => Option::Some(('C', Option::Some('r'))),
        ('m', Option::Some('n')) => Option::Some(('M', Option::Some('n'))),
        ('f', Option::Some('e')) => Option::Some(('F', Option::Some('e'))),
        ('c', Option::Some('o')) => Option::Some(('C', Option::Some('o'))),
        ('n', Option::Some('i')) => Option::Some(('N', Option::Some('i'))),
        ('c', Option::Some('u')) => Option::Some(('C', Option::Some('u'))),
        ('z', Option::Some('n')) => Option::Some(('Z', Option::Some('n'))),
        ('g', Option::Some('a')) => Option::Some(('G', Option::Some('a'))),
        ('g', Option::Some('e')) => Option::Some(('G', Option::Some('e'))),
        ('a', Option::Some('s')) => Option::Some(('A', Option::Some('s'))),
        ('s', Option::Some('e')) => Option::Some(('S', Option::Some('e'))),
        ('b', Option::Some('r')) => Option::Some(('B', Option::Some('r'))),
        ('k', Option::Some('r')) => Option::Some(('K', Option::Some('r'))),
        ('r', Option::Some('b')) => Option::Some(('R', Option::Some('b'))),
        ('s', Option::Some('r')) => Option::Some(('S', Option::Some('r'))),
        ('y', Option::None) => Option::Some(('Y', Option::None)),
        ('z', Option::Some('r')) => Option::Some(('Z', Option::Some('r'))),
        ('n', Option::Some('b')) => Option::Some(('N', Option::Some('b'))),
        ('m', Option::Some('o')) => Option::Some(('M', Option::Some('o'))),
        ('t', Option::Some('c')) => Option::Some(('T', Option::Some('c'))),
        ('r', Option::Some('u')) => Option::Some(('R', Option::Some('u'))),
        ('r', Option::Some('h')) => Option::Some(('R', Option::Some('h'))),
        ('p', Option::Some('d')) => Option::Some(('P', Option::Some('d'))),
        ('a', Option::Some('g')) => Option::Some(('A', Option::Some('g'))),
        ('c', Option::Some('d')) => Option::Some(('C', Option::Some('d'))),
        ('i', Option::Some('n')) => Option::Some(('I', Option::Some('n'))),
        ('s', Option::Some('n')) => Option::Some(('S', Option::Some('n'))),
        ('s', Option::Some('b')) => Option::Some(('S', Option::Some('b'))),
        ('t', Option::Some('e')) => Option::Some(('T', Option::Some('e'))),
        ('i', Option::None) => Option::Some(('I', Option::None)),
        ('x', Option::Some('e')) => Option::Some(('X', Option::Some('e'))),
        ('c', Option::Some('s')) => Option::Some(('C', Option::Some('s'))),
        ('b', Option::Some('a')) => Option::Some(('B', Option::Some('a'))),
        ('l', Option::Some('a')) => Option::Some(('L', Option::Some('a'))),
        ('c', Option::Some('e')) => Option::Some(('C', Option::Some('e'))),
        ('p', Option::Some('r')) => Option::Some(('P', Option::Some('r'))),
        ('n', Option::Some('d')) => Option::Some(('N', Option::Some('d'))),
        ('p', Option::Some('m')) => Option::Some(('P', Option::Some('m'))),
        ('s', Option::Some('m')) => Option::Some(('S', Option::Some('m'))),
        ('e', Option::Some('u')) => Option::Some(('E', Option::Some('u'))),
        ('g', Option::Some('d')) => Option::Some(('G', Option::Some('d'))),
        ('t', Option::Some('b')) => Option::Some(('T', Option::Some('b'))),
        ('d', Option::Some('y')) => Option::Some(('D', Option::Some('y'))),
        ('h', Option::Some('o')) => Option::Some(('H', Option::Some('o'))),
        ('e', Option::Some('r')) => Option::Some(('E', Option::Some('r'))),
        ('t', Option::Some('m')) => Option::Some(('T', Option::Some('m'))),
        ('y', Option::Some('b')) => Option::Some(('Y', Option::Some('b'))),
        ('l', Option::Some('u')) => Option::Some(('L', Option::Some('u'))),
        ('h', Option::Some('f')) => Option::Some(('H', Option::Some('f'))),
        ('t', Option::Some('a')) => Option::Some(('T', Option::Some('a'))),
        ('w', Option::None) => Option::Some(('W', Option::None)),
        ('r', Option::Some('e')) => Option::Some(('R', Option::Some('e'))),
        ('o', Option::Some('s')) => Option::Some(('O', Option::Some('s'))),
        ('i', Option::Some('r')) => Option::Some(('I', Option::Some('r'))),
        ('p', Option::Some('t')) => Option::Some(('P', Option::Some('t'))),
        ('a', Option::Some('u')) => Option::Some(('A', Option::Some('u'))),
        ('h', Option::Some('g')) => Option::Some(('H', Option::Some('g'))),
        ('t', Option::Some('l')) => Option::Some(('T', Option::Some('l'))),
        ('p', Option::Some('b')) => Option::Some(('P', Option::Some('b'))),
        ('b', Option::Some('i')) => Option::Some(('B', Option::Some('i'))),
        ('p', Option::Some('o')) => Option::Some(('P', Option::Some('o'))),
        ('a', Option::Some('t')) => Option::Some(('A', Option::Some('t'))),
        ('r', Option::Some('n')) => Option::Some(('R', Option::Some('n'))),
        ('f', Option::Some('r')) => Option::Some(('F', Option::Some('r'))),
        ('r', Option::Some('a')) => Option::Some(('R', Option::Some('a'))),
        ('a', Option::Some('c')) => Option::Some(('A', Option::Some('c'))),
        ('t', Option::Some('h')) => Option::Some(('T', Option::Some('h'))),
        ('p', Option::Some('a')) => Option::Some(('P', Option::Some('a'))),
        ('u', Option::None) => Option::Some(('U', Option::None)),
        ('n', Option::Some('p')) => Option::Some(('N', Option::Some('p'))),
        ('p', Option::Some('u')) => Option::Some(('P', Option::Some('u'))),
        ('a', Option::Some('m')) => Option::Some(('A', Option::Some('m'))),
        ('c', Option::Some('m')) => Option::Some(('C', Option::Some('m'))),
        ('b', Option::Some('k')) => Option::Some(('B', Option::Some('k'))),
        ('c', Option::Some('f')) => Option::Some(('C', Option::Some('f'))),
        ('e', Option::Some('s')) => Option::Some(('E', Option::Some('s'))),
        ('f', Option::Some('m')) => Option::Some(('F', Option::Some('m'))),
        ('m', Option::Some('d')) => Option::Some(('M', Option::Some('d'))),
        ('n', Option::Some('o')) => Option::Some(('N', Option::Some('o'))),
        ('l', Option::Some('r')) => Option::Some(('L', Option::Some('r'))),
        ('r', Option::Some('f')) => Option::Some(('R', Option::Some('f'))),
        ('d', Option::Some('b')) => Option::Some(('D', Option::Some('b'))),
        ('s', Option::Some('g')) => Option::Some(('S', Option::Some('g'))),
        ('b', Option::Some('h')) => Option::Some(('B', Option::Some('h'))),
        ('h', Option::Some('s')) => Option::Some(('H', Option::Some('s'))),
        ('m', Option::Some('t')) => Option::Some(('M', Option::Some('t'))),
        ('d', Option::Some('s')) => Option::Some(('D', Option::Some('s'))),
        ('r', Option::Some('g')) => Option::Some(('R', Option::Some('g'))),
        ('c', Option::Some('n')) => Option::Some(('C', Option::Some('n'))),
        ('n', Option::Some('h')) => Option::Some(('N', Option::Some('h'))),
        ('f', Option::Some('l')) => Option::Some(('F', Option::Some('l'))),
        ('m', Option::Some('c')) => Option::Some(('M', Option::Some('c'))),
        ('l', Option::Some('v')) => Option::Some(('L', Option::Some('v'))),
        ('t', Option::Some('s')) => Option::Some(('T', Option::Some('s'))),
        ('o', Option::Some('g')) => Option::Some(('O', Option::Some('g'))),
        _ => Option::None,
    }
}

pub open spec fn lower_spec(c: char) -> char {
    match c {
        'A' => 'a',
        'B' => 'b',
        'C' => 'c',
        'D' => 'd',
        'E' => 'e',
        'F' => 'f',
        'G' => 'g',
        'H' => 'h',
        'I' => 'i',
        'J' => 'j',
        'K' => 'k',
        'L' => 'l',
        'M' => 'm',
        'N' => 'n',
        'O' => 'o',
        'P' => 'p',
        'Q' => 'q',
        'R' => 'r',
        'S' => 's',
        'T' => 't',
        'U' => 'u',
        'V' => 'v',
        'W' => 'w',
        'X' => 'x',
        'Y' => 'y',
        'Z' => 'z',
        _ => c,
    }
}

/// Lower-case one ASCII letter; anything else is left alone.
pub fn to_lower(c: char) -> (r: char)
    ensures
        r == lower_spec(c),
{
    match c {
        'A' => 'a',
        'B' => 'b',
        'C' => 'c',
        'D' => 'd',
        'E' => 'e',
        'F' => 'f',
        'G' => 'g',
        'H' => 'h',
        'I' => 'i',
        'J' => 'j',
        'K' => 'k',
        'L' => 'l',
        'M' => 'm',
        'N' => 'n',
        'O' => 'o',
        'P' => 'p',
        'Q' => 'q',
        'R' => 'r',
        'S' => 's',
        'T' => 't',
        'U' => 'u',
        'V' => 'v',
        'W' => 'w',
        'X' => 'x',
        'Y' => 'y',
        'Z' => 'z',
        _ => c,
    }
}

} // verus!
