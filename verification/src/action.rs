//! The assertion mini-language: a one-line quota expression such as
//! `count >= 6` or `sum >= 1.5`, tokenized with double-quoted segments,
//! parsed into an aggregate command, a comparison operator and a target
//! value, printed back out, and evaluated against an observed value.

use vstd::prelude::*;

use crate::text::{
    all_digits, chars_of, dec_digits, digit_char, digit_to_char, digit_val, digits_val, is_digit,
    is_space, is_space_char, lemma_dec_digits_val, lemma_digits_val_prefix, spec_trim, string_of,
    trim_chars, u64_to_chars,
};

verus! {

/// An aggregate command over a pool of records.
#[derive(Debug, Clone, Copy, PartialEq, Eq, Structural, Hash)]
pub enum Command {
    Count,
    Sum,
    Average,
    Minimum,
    Maximum,
}

/// A comparison operator of the assertion language.
#[derive(Debug, Clone, Copy, PartialEq, Eq, Structural, Hash)]
pub enum Operator {
    LessThan,
    LessThanEqualTo,
    EqualTo,
    GreaterThan,
    GreaterThanEqualTo,
    NotEqualTo,
}

/// Why an assertion string failed to parse.
#[derive(Debug, Clone, Copy, PartialEq, Eq, Structural, Hash)]
pub enum ParseError {
    /// The token count was neither one nor three.
    InvalidAction,
    /// The middle token was not a known comparison operator.
    UnknownOperator,
    /// A string was not a known aggregate command keyword.
    UnknownCommand,
}

/// An exact non-negative decimal number, kept as a count of hundredths so
/// that quota arithmetic never rounds.
#[derive(Debug, Clone, Copy, PartialEq, Eq, Structural, Hash)]
pub struct Decimal {
    pub hundredths: u64,
}

/// A target or observed value: a command keyword, an opaque string, an
/// integer, or an exact decimal.
#[derive(Debug, Clone)]
pub enum Value {
    Command(Command),
    String(String),
    Integer(u64),
    Decimal(Decimal),
}

/// The mathematical model of a `Value`.
pub enum ValueView {
    Command(Command),
    Str(Seq<char>),
    Integer(u64),
    Decimal(u64),
}

impl View for Value {
    type V = ValueView;

    open spec fn view(&self) -> ValueView {
        match self {
            Value::Command(c) => ValueView::Command(*c),
            Value::String(s) => ValueView::Str(s@),
            Value::Integer(n) => ValueView::Integer(*n),
            Value::Decimal(d) => ValueView::Decimal(d.hundredths),
        }
    }
}

impl PartialEq for Value {
    fn eq(&self, other: &Value) -> (r: bool) {
        match (self, other) {
            (Value::Command(a), Value::Command(b)) => a == b,
            (Value::String(a), Value::String(b)) => String::eq(a, b),
            (Value::Integer(a), Value::Integer(b)) => a == b,
            (Value::Decimal(a), Value::Decimal(b)) => a == b,
            _ => false,
        }
    }
}

impl vstd::std_specs::cmp::PartialEqSpecImpl for Value {
    open spec fn obeys_eq_spec() -> bool {
        true
    }

    open spec fn eq_spec(&self, other: &Value) -> bool {
        self@ == other@
    }
}

/// A parsed assertion: a left-hand value (usually a command), and an
/// optional comparison against a right-hand value. A bare command with no
/// operator queries the aggregate itself rather than passing or failing.
#[derive(Debug, Clone)]
pub struct Action {
    pub lhs: Value,
    pub op: Option<Operator>,
    pub rhs: Option<Value>,
}

/// The mathematical model of an `Action`.
pub struct ActionView {
    pub lhs: ValueView,
    pub op: Option<Operator>,
    pub rhs: Option<ValueView>,
}

impl View for Action {
    type V = ActionView;

    open spec fn view(&self) -> ActionView {
        ActionView {
            lhs: self.lhs@,
            op: self.op,
            rhs: match self.rhs {
                Some(v) => Some(v@),
                None => None,
            },
        }
    }
}

impl PartialEq for Action {
    fn eq(&self, other: &Action) -> (r: bool) {
        let lhs_eq = self.lhs == other.lhs;
        let op_eq = match (&self.op, &other.op) {
            (Some(a), Some(b)) => a == b,
            (None, None) => true,
            _ => false,
        };
        let rhs_eq = match (&self.rhs, &other.rhs) {
            (Some(a), Some(b)) => a == b,
            (None, None) => true,
            _ => false,
        };
        lhs_eq && op_eq && rhs_eq
    }
}

impl vstd::std_specs::cmp::PartialEqSpecImpl for Action {
    open spec fn obeys_eq_spec() -> bool {
        true
    }

    open spec fn eq_spec(&self, other: &Action) -> bool {
        self@ == other@
    }
}

/// The tokenizer's running state: whether we are inside a double-quoted
/// segment, the characters of the token being collected, and the tokens
/// already emitted.
pub struct SplitState {
    pub in_str: bool,
    pub current: Seq<char>,
    pub done: Seq<Seq<char>>,
}

/// One character of tokenization: a quote toggles string mode and is
/// dropped; inside quotes every character is collected; outside quotes
/// whitespace ends the pending token (trimmed) and anything else is
/// collected.
pub open spec fn split_step(st: SplitState, c: char) -> SplitState {
    if c == '"' {
        SplitState { in_str: !st.in_str, current: st.current, done: st.done }
    } else if st.in_str {
        SplitState { in_str: st.in_str, current: st.current.push(c), done: st.done }
    } else if is_space(c) {
        if st.current.len() > 0 {
            SplitState {
                in_str: st.in_str,
                current: Seq::empty(),
                done: st.done.push(spec_trim(st.current)),
            }
        } else {
            st
        }
    } else {
        SplitState { in_str: st.in_str, current: st.current.push(c), done: st.done }
    }
}

pub open spec fn split_fold(st: SplitState, s: Seq<char>) -> SplitState
    decreases s.len(),
{
    if s.len() == 0 {
        st
    } else {
        split_fold(split_step(st, s[0]), s.drop_first())
    }
}

pub open spec fn split_init() -> SplitState {
    SplitState { in_str: false, current: Seq::empty(), done: Seq::empty() }
}

/// The token list of an assertion line: whitespace-separated, with
/// double-quoted segments kept together (quotes stripped, inner
/// whitespace preserved), each token trimmed.
pub open spec fn spec_split(s: Seq<char>) -> Seq<Seq<char>> {
    let st = split_fold(split_init(), s);
    if st.current.len() > 0 {
        st.done.push(spec_trim(st.current))
    } else {
        st.done
    }
}

pub proof fn lemma_split_fold_snoc(st: SplitState, s: Seq<char>, c: char)
    ensures
        split_fold(st, s.push(c)) == split_step(split_fold(st, s), c),
    decreases s.len(),
{
    if s.len() == 0 {
        assert(s.push(c)[0] == c);
        let e = s.push(c).drop_first();
        assert(e =~= Seq::<char>::empty());
        assert(split_fold(split_step(st, c), e) == split_step(st, c));
        assert(split_fold(st, s) == st);
    } else {
        assert(s.push(c)[0] == s[0]);
        assert(s.push(c).drop_first() =~= s.drop_first().push(c));
        lemma_split_fold_snoc(split_step(st, s[0]), s.drop_first(), c);
        assert(split_fold(st, s.push(c)) == split_fold(
            split_step(st, s[0]),
            s.drop_first().push(c),
        ));
        assert(split_fold(st, s) == split_fold(split_step(st, s[0]), s.drop_first()));
    }
}

/// Tokenizes an assertion line into character vectors.
pub fn split_tokens(s: &str) -> (r: Vec<Vec<char>>)
    ensures
        r@.map_values(|t: Vec<char>| t@) == spec_split(s@),
{
    let cs = chars_of(s);
    let n = cs.len();
    let mut in_str = false;
    let mut current: Vec<char> = Vec::new();
    let mut done: Vec<Vec<char>> = Vec::new();
    let mut i: usize = 0;
    proof {
        assert(s@.take(0) =~= Seq::<char>::empty());
        assert(split_fold(split_init(), s@.take(0)) == split_init());
        assert(done@.map_values(|t: Vec<char>| t@) =~= Seq::<Seq<char>>::empty());
    }
    while i < n
        invariant
            0 <= i <= n,
            n == cs.len(),
            cs@ == s@,
            split_fold(split_init(), s@.take(i as int)) == (SplitState {
                in_str: in_str,
                current: current@,
                done: done@.map_values(|t: Vec<char>| t@),
            }),
        decreases n - i,
    {
        let ghost pre = split_fold(split_init(), s@.take(i as int));
        proof {
            assert(s@.take(i + 1 as int) =~= s@.take(i as int).push(s@[i as int]));
            lemma_split_fold_snoc(split_init(), s@.take(i as int), s@[i as int]);
        }
        let c = cs[i];
        if c == '"' {
            in_str = !in_str;
        } else if in_str {
            current.push(c);
        } else if is_space_char(c) {
            if current.len() > 0 {
                let t = trim_chars(&current);
                done.push(t);
                current = Vec::new();
                proof {
                    assert(done@.map_values(|t: Vec<char>| t@) =~= pre.done.push(
                        spec_trim(pre.current),
                    ));
                }
            }
        } else {
            current.push(c);
        }
        i = i + 1;
    }
    proof {
        assert(s@.take(n as int) =~= s@);
    }
    if current.len() > 0 {
        let t = trim_chars(&current);
        done.push(t);
        proof {
            let st = split_fold(split_init(), s@);
            assert(done@.map_values(|t: Vec<char>| t@) =~= st.done.push(spec_trim(st.current)));
        }
    }
    done
}

/// Tokenizes an assertion line, yielding owned strings.
pub fn split_action_str(s: &str) -> (r: Vec<String>)
    ensures
        r@.map_values(|t: String| t@) == spec_split(s@),
{
    let toks = split_tokens(s);
    let mut r: Vec<String> = Vec::new();
    let mut i: usize = 0;
    while i < toks.len()
        invariant
            0 <= i <= toks.len(),
            toks@.map_values(|t: Vec<char>| t@) == spec_split(s@),
            r@.len() == i,
            forall|j: int| 0 <= j < i ==> r@[j]@ == toks@[j]@,
        decreases toks.len() - i,
    {
        let t = string_of(&toks[i]);
        r.push(t);
        i = i + 1;
    }
    proof {
        assert(r@.map_values(|t: String| t@) =~= spec_split(s@));
    }
    r
}

/// How an assertion line is read: exactly one token is a bare value;
/// exactly three tokens are a comparison; anything else is malformed.
pub open spec fn spec_parse_action(s: Seq<char>) -> Result<ActionView, ParseError> {
    let toks = spec_split(s);
    if toks.len() == 1 {
        Ok(ActionView { lhs: spec_parse_value(toks[0]), op: None, rhs: None })
    } else if toks.len() == 3 {
        match spec_parse_operator(toks[1]) {
            None => Err(ParseError::UnknownOperator),
            Some(op) => Ok(
                ActionView {
                    lhs: spec_parse_value(toks[0]),
                    op: Some(op),
                    rhs: Some(spec_parse_value(toks[2])),
                },
            ),
        }
    } else {
        Err(ParseError::InvalidAction)
    }
}

impl Action {
    /// Parses an assertion line such as `count >= 6`, `sum >= 1.5`, or a
    /// bare `maximum`.
    pub fn parse(s: &str) -> (r: Result<Action, ParseError>)
        ensures
            match r {
                Ok(a) => spec_parse_action(s@) == Ok::<ActionView, ParseError>(a@),
                Err(e) => spec_parse_action(s@) == Err::<ActionView, ParseError>(e),
            },
    {
        let toks = split_tokens(s);
        if toks.len() == 1 {
            let lhs = parse_value_chars(&toks[0]);
            Ok(Action { lhs, op: None, rhs: None })
        } else if toks.len() == 3 {
            match parse_operator_chars(&toks[1]) {
                None => Err(ParseError::UnknownOperator),
                Some(op) => {
                    let lhs = parse_value_chars(&toks[0]);
                    let rhs = parse_value_chars(&toks[2]);
                    Ok(Action { lhs, op: Some(op), rhs: Some(rhs) })
                },
            }
        } else {
            Err(ParseError::InvalidAction)
        }
    }
}

impl core::str::FromStr for Action {
    type Err = ParseError;

    fn from_str(s: &str) -> Result<Action, ParseError> {
        Action::parse(s)
    }
}

/// Whether a token equals a given string, character for character.
pub fn chars_eq_str(v: &Vec<char>, s: &str) -> (b: bool)
    ensures
        b == (v@ == s@),
{
    let n = s.unicode_len();
    if v.len() != n {
        return false;
    }
    let mut i: usize = 0;
    while i < n
        invariant
            0 <= i <= n,
            n == s@.len(),
            v@.len() == n,
            forall|j: int| 0 <= j < i ==> v@[j] == s@[j],
        decreases n - i,
    {
        if v[i] != s.get_char(i) {
            return false;
        }
        i = i + 1;
    }
    proof {
        assert(v@ =~= s@);
    }
    true
}

/// The keyword of an aggregate command.
pub open spec fn command_chars(c: Command) -> Seq<char> {
    match c {
        Command::Count => seq!['c', 'o', 'u', 'n', 't'],
        Command::Sum => seq!['s', 'u', 'm'],
        Command::Average => seq!['a', 'v', 'e', 'r', 'a', 'g', 'e'],
        Command::Minimum => seq!['m', 'i', 'n', 'i', 'm', 'u', 'm'],
        Command::Maximum => seq!['m', 'a', 'x', 'i', 'm', 'u', 'm'],
    }
}

/// The symbol of a comparison operator.
pub open spec fn operator_chars(op: Operator) -> Seq<char> {
    match op {
        Operator::LessThan => seq!['<'],
        Operator::LessThanEqualTo => seq!['<', '='],
        Operator::EqualTo => seq!['='],
        Operator::GreaterThan => seq!['>'],
        Operator::GreaterThanEqualTo => seq!['>', '='],
        Operator::NotEqualTo => seq!['!'],
    }
}

/// Command keyword lookup; the input is trimmed first.
pub open spec fn spec_parse_command(s: Seq<char>) -> Option<Command> {
    let t = spec_trim(s);
    if t == command_chars(Command::Count) {
        Some(Command::Count)
    } else if t == command_chars(Command::Sum) {
        Some(Command::Sum)
    } else if t == command_chars(Command::Average) {
        Some(Command::Average)
    } else if t == command_chars(Command::Minimum) {
        Some(Command::Minimum)
    } else if t == command_chars(Command::Maximum) {
        Some(Command::Maximum)
    } else {
        None
    }
}

/// Operator symbol lookup.
pub open spec fn spec_parse_operator(s: Seq<char>) -> Option<Operator> {
    if s == operator_chars(Operator::LessThan) {
        Some(Operator::LessThan)
    } else if s == operator_chars(Operator::LessThanEqualTo) {
        Some(Operator::LessThanEqualTo)
    } else if s == operator_chars(Operator::EqualTo) {
        Some(Operator::EqualTo)
    } else if s == operator_chars(Operator::GreaterThan) {
        Some(Operator::GreaterThan)
    } else if s == operator_chars(Operator::GreaterThanEqualTo) {
        Some(Operator::GreaterThanEqualTo)
    } else if s == operator_chars(Operator::NotEqualTo) {
        Some(Operator::NotEqualTo)
    } else {
        None
    }
}

/// An unsigned integer literal: one or more decimal digits whose value
/// fits in a machine word.
pub open spec fn spec_parse_u64(s: Seq<char>) -> Option<u64> {
    if s.len() > 0 && all_digits(s) && digits_val(s) <= u64::MAX {
        Some(digits_val(s) as u64)
    } else {
        None
    }
}

/// The position of the first `.` in a token, if any.
pub open spec fn find_dot(s: Seq<char>) -> Option<int>
    decreases s.len(),
{
    if s.len() == 0 {
        None
    } else if s[0] == '.' {
        Some(0)
    } else {
        match find_dot(s.drop_first()) {
            Some(i) => Some(i + 1),
            None => None,
        }
    }
}

proof fn lemma_find_dot_at(s: Seq<char>, k: int)
    requires
        0 <= k < s.len(),
        s[k] == '.',
        forall|j: int| 0 <= j < k ==> s[j] != '.',
    ensures
        find_dot(s) == Some(k),
    decreases k,
{
    if k > 0 {
        let t = s.drop_first();
        assert(forall|j: int| 0 <= j < k - 1 ==> #[trigger] t[j] != '.');
        lemma_find_dot_at(t, k - 1);
    }
}

proof fn lemma_find_dot_none(s: Seq<char>)
    requires
        forall|j: int| 0 <= j < s.len() ==> s[j] != '.',
    ensures
        find_dot(s) == None::<int>,
    decreases s.len(),
{
    if s.len() > 0 {
        let t = s.drop_first();
        assert(forall|j: int| 0 <= j < t.len() ==> #[trigger] t[j] != '.');
        lemma_find_dot_none(t);
    }
}

/// A decimal literal: digits, a dot, and one or two fractional digits,
/// read as a count of hundredths.
pub open spec fn spec_parse_decimal(s: Seq<char>) -> Option<u64> {
    match find_dot(s) {
        None => None,
        Some(i) => {
            let whole = s.take(i);
            let frac = s.skip(i + 1);
            if whole.len() > 0 && all_digits(whole) && (frac.len() == 1 || frac.len() == 2)
                && all_digits(frac) {
                let scale: int = if frac.len() == 1 { 10 } else { 1 };
                let h = digits_val(whole) * 100 + digits_val(frac) * scale;
                if h <= u64::MAX {
                    Some(h as u64)
                } else {
                    None
                }
            } else {
                None
            }
        },
    }
}

/// How a single token is read as a value: integer first, then decimal,
/// then command keyword, else an opaque string.
pub open spec fn spec_parse_value(s: Seq<char>) -> ValueView {
    if spec_parse_u64(s) is Some {
        ValueView::Integer(spec_parse_u64(s)->Some_0)
    } else if spec_parse_decimal(s) is Some {
        ValueView::Decimal(spec_parse_decimal(s)->Some_0)
    } else if spec_parse_command(s) is Some {
        ValueView::Command(spec_parse_command(s)->Some_0)
    } else {
        ValueView::Str(s)
    }
}

pub fn is_digit_char(c: char) -> (b: bool)
    ensures
        b == is_digit(c),
{
    let u = c as u32;
    48 <= u && u <= 57
}

fn char_to_digit(c: char) -> (d: u64)
    requires
        is_digit(c),
    ensures
        d == digit_val(c),
{
    (c as u32 - 48) as u64
}

/// Reads a digit token as an unsigned integer.
pub fn parse_u64_chars(v: &Vec<char>) -> (r: Option<u64>)
    ensures
        r == spec_parse_u64(v@),
{
    if v.len() == 0 {
        return None;
    }
    let mut acc: u64 = 0;
    let mut i: usize = 0;
    while i < v.len()
        invariant
            0 <= i <= v.len(),
            all_digits(v@.take(i as int)),
            acc == digits_val(v@.take(i as int)),
        decreases v.len() - i,
    {
        let c = v[i];
        if !is_digit_char(c) {
            assert(!all_digits(v@));
            return None;
        }
        let d = char_to_digit(c);
        let wide: u128 = acc as u128 * 10 + d as u128;
        proof {
            let p = v@.take(i + 1 as int);
            assert(p.drop_last() =~= v@.take(i as int));
            assert(forall|j: int| 0 <= j < p.len() ==> is_digit(#[trigger] p[j]));
            assert(digits_val(p) == wide);
        }
        if wide > u64::MAX as u128 {
            proof {
                if all_digits(v@) && digits_val(v@) <= u64::MAX {
                    lemma_digits_val_prefix(v@, i + 1 as int);
                    assert(false);
                }
            }
            return None;
        }
        acc = wide as u64;
        i = i + 1;
    }
    proof {
        assert(v@.take(v.len() as int) =~= v@);
    }
    Some(acc)
}

/// Copies a slice of a character vector.
pub fn subrange_vec(v: &Vec<char>, from: usize, to: usize) -> (r: Vec<char>)
    requires
        0 <= from <= to <= v.len(),
    ensures
        r@ == v@.subrange(from as int, to as int),
{
    let mut r: Vec<char> = Vec::new();
    let mut i: usize = from;
    while i < to
        invariant
            from <= i <= to <= v.len(),
            r@ == v@.subrange(from as int, i as int),
        decreases to - i,
    {
        r.push(v[i]);
        proof {
            assert(r@ =~= v@.subrange(from as int, i + 1 as int));
        }
        i = i + 1;
    }
    r
}

/// Reads a token as a decimal number of hundredths.
pub fn parse_decimal_chars(v: &Vec<char>) -> (r: Option<u64>)
    ensures
        r == spec_parse_decimal(v@),
{
    let mut dot: usize = 0;
    let mut found = false;
    let mut i: usize = 0;
    while i < v.len()
        invariant
            0 <= i <= v.len(),
            !found ==> forall|j: int| 0 <= j < i ==> v@[j] != '.',
            found ==> 0 <= dot < i && v@[dot as int] == '.' && (forall|j: int|
                0 <= j < dot ==> v@[j] != '.'),
        decreases v.len() - i,
    {
        if !found && v[i] == '.' {
            dot = i;
            found = true;
        }
        i = i + 1;
    }
    if !found {
        proof {
            lemma_find_dot_none(v@);
        }
        return None;
    }
    proof {
        lemma_find_dot_at(v@, dot as int);
    }
    let whole = subrange_vec(v, 0, dot);
    let frac = subrange_vec(v, dot + 1, v.len());
    let ghost ws = v@.take(dot as int);
    let ghost fs = v@.skip(dot + 1);
    proof {
        assert(whole@ =~= ws);
        assert(frac@ =~= fs);
    }
    let whole_val = match parse_u64_chars(&whole) {
        Some(w) => w,
        None => {
            proof {
                if ws.len() > 0 && all_digits(ws) && (fs.len() == 1 || fs.len() == 2)
                    && all_digits(fs) {
                    // the whole part alone already exceeds the machine word
                    lemma_digits_val_prefix(ws, ws.len() as int);
                    crate::text::lemma_digits_val_nonneg(fs);
                    assert(digits_val(ws) * 100 >= digits_val(ws));
                    let scale: int = if fs.len() == 1 { 10 } else { 1 };
                    assert(digits_val(fs) * scale >= 0);
                }
            }
            return None;
        },
    };
    if frac.len() != 1 && frac.len() != 2 {
        return None;
    }
    let mut frac_val: u64 = 0;
    let mut scale: u64 = 1;
    if frac.len() == 1 {
        let c = frac[0];
        if !is_digit_char(c) {
            return None;
        }
        frac_val = char_to_digit(c);
        scale = 10;
        proof {
            assert(fs.drop_last() =~= Seq::<char>::empty());
            assert(digits_val(Seq::<char>::empty()) == 0);
            assert(fs.last() == c);
            assert(forall|j: int| 0 <= j < fs.len() ==> is_digit(#[trigger] fs[j]));
            assert(digits_val(fs) == frac_val);
        }
    } else {
        let c0 = frac[0];
        let c1 = frac[1];
        if !is_digit_char(c0) || !is_digit_char(c1) {
            return None;
        }
        frac_val = char_to_digit(c0) * 10 + char_to_digit(c1);
        scale = 1;
        proof {
            assert(fs.drop_last().drop_last() =~= Seq::<char>::empty());
            assert(digits_val(Seq::<char>::empty()) == 0);
            assert(fs.drop_last().last() == c0);
            assert(fs.last() == c1);
            assert(forall|j: int| 0 <= j < fs.len() ==> is_digit(#[trigger] fs[j]));
            assert(digits_val(fs.drop_last()) == digit_val(c0));
            assert(digits_val(fs) == frac_val);
        }
    }
    let wide: u128 = whole_val as u128 * 100 + (frac_val * scale) as u128;
    proof {
        crate::text::lemma_digits_val_nonneg(ws);
        assert(digits_val(ws) == whole_val as int);
        assert(digits_val(fs) == frac_val as int);
        let sc: int = if fs.len() == 1 { 10 } else { 1 };
        assert(sc == scale as int);
        assert(digits_val(ws) * 100 + digits_val(fs) * sc == wide as int);
    }
    if wide > u64::MAX as u128 {
        return None;
    }
    Some(wide as u64)
}

/// Reads a token as a value, trying integer, decimal, then command.
pub fn parse_value_chars(v: &Vec<char>) -> (r: Value)
    ensures
        r@ == spec_parse_value(v@),
{
    match parse_u64_chars(v) {
        Some(n) => Value::Integer(n),
        None => {
            match parse_decimal_chars(v) {
                Some(h) => Value::Decimal(Decimal { hundredths: h }),
                None => {
                    let t = trim_chars(v);
                    proof {
                        reveal_strlit("count");
                        reveal_strlit("sum");
                        reveal_strlit("average");
                        reveal_strlit("minimum");
                        reveal_strlit("maximum");
                        assert("count"@ =~= command_chars(Command::Count));
                        assert("sum"@ =~= command_chars(Command::Sum));
                        assert("average"@ =~= command_chars(Command::Average));
                        assert("minimum"@ =~= command_chars(Command::Minimum));
                        assert("maximum"@ =~= command_chars(Command::Maximum));
                    }
                    if chars_eq_str(&t, "count") {
                        Value::Command(Command::Count)
                    } else if chars_eq_str(&t, "sum") {
                        Value::Command(Command::Sum)
                    } else if chars_eq_str(&t, "average") {
                        Value::Command(Command::Average)
                    } else if chars_eq_str(&t, "minimum") {
                        Value::Command(Command::Minimum)
                    } else if chars_eq_str(&t, "maximum") {
                        Value::Command(Command::Maximum)
                    } else {
                        Value::String(string_of(v))
                    }
                },
            }
        },
    }
}

/// Reads a token as a comparison operator.
pub fn parse_operator_chars(v: &Vec<char>) -> (r: Option<Operator>)
    ensures
        r == spec_parse_operator(v@),
{
    proof {
        reveal_strlit("<");
        reveal_strlit("<=");
        reveal_strlit("=");
        reveal_strlit(">");
        reveal_strlit(">=");
        reveal_strlit("!");
        assert("<"@ =~= operator_chars(Operator::LessThan));
        assert("<="@ =~= operator_chars(Operator::LessThanEqualTo));
        assert("="@ =~= operator_chars(Operator::EqualTo));
        assert(">"@ =~= operator_chars(Operator::GreaterThan));
        assert(">="@ =~= operator_chars(Operator::GreaterThanEqualTo));
        assert("!"@ =~= operator_chars(Operator::NotEqualTo));
    }
    if chars_eq_str(v, "<") {
        Some(Operator::LessThan)
    } else if chars_eq_str(v, "<=") {
        Some(Operator::LessThanEqualTo)
    } else if chars_eq_str(v, "=") {
        Some(Operator::EqualTo)
    } else if chars_eq_str(v, ">") {
        Some(Operator::GreaterThan)
    } else if chars_eq_str(v, ">=") {
        Some(Operator::GreaterThanEqualTo)
    } else if chars_eq_str(v, "!") {
        Some(Operator::NotEqualTo)
    } else {
        None
    }
}

/// Why a value or assertion could not be rendered.
#[derive(Debug, Clone, Copy, PartialEq, Eq, Structural, Hash)]
pub enum PrintError {
    /// The combination of command, operator and value has no rendering.
    Unprintable,
}

/// The canonical rendering of a decimal count of hundredths, always with
/// two fractional digits.
pub open spec fn decimal_chars(h: u64) -> Seq<char> {
    dec_digits((h / 100) as nat) + seq!['.', digit_char(((h / 10) % 10) as int), digit_char(
        (h % 10) as int,
    )]
}

/// The canonical rendering of a value; strings are double-quoted.
pub open spec fn spec_print_value(v: ValueView) -> Seq<char> {
    match v {
        ValueView::Command(c) => command_chars(c),
        ValueView::Str(s) => seq!['"'] + s + seq!['"'],
        ValueView::Integer(n) => dec_digits(n as nat),
        ValueView::Decimal(h) => decimal_chars(h),
    }
}

/// An assertion is canonical when the operator and the right-hand value
/// are both present or both absent.
pub open spec fn action_canonical(a: ActionView) -> bool {
    (a.op is Some && a.rhs is Some) || (a.op is None && a.rhs is None)
}

/// The canonical one-line rendering of an assertion.
pub open spec fn spec_print_action(a: ActionView) -> Seq<char> {
    match (a.op, a.rhs) {
        (Some(op), Some(rhs)) => spec_print_value(a.lhs) + seq![' '] + operator_chars(op) + seq![
            ' ',
        ] + spec_print_value(rhs),
        _ => spec_print_value(a.lhs),
    }
}

fn command_text(c: &Command) -> (r: &'static str)
    ensures
        r@ == command_chars(*c),
{
    proof {
        reveal_strlit("count");
        reveal_strlit("sum");
        reveal_strlit("average");
        reveal_strlit("minimum");
        reveal_strlit("maximum");
        assert("count"@ =~= command_chars(Command::Count));
        assert("sum"@ =~= command_chars(Command::Sum));
        assert("average"@ =~= command_chars(Command::Average));
        assert("minimum"@ =~= command_chars(Command::Minimum));
        assert("maximum"@ =~= command_chars(Command::Maximum));
    }
    match c {
        Command::Count => "count",
        Command::Sum => "sum",
        Command::Average => "average",
        Command::Minimum => "minimum",
        Command::Maximum => "maximum",
    }
}

impl Command {
    /// The keyword this command is written as.
    pub fn text(&self) -> (r: String)
        ensures
            r@ == command_chars(*self),
    {
        String::from_str(command_text(self))
    }
}

fn operator_symbol(op: &Operator) -> (r: &'static str)
    ensures
        r@ == operator_chars(*op),
{
    proof {
        reveal_strlit("<");
        reveal_strlit("<=");
        reveal_strlit("=");
        reveal_strlit(">");
        reveal_strlit(">=");
        reveal_strlit("!");
        assert("<"@ =~= operator_chars(Operator::LessThan));
        assert("<="@ =~= operator_chars(Operator::LessThanEqualTo));
        assert("="@ =~= operator_chars(Operator::EqualTo));
        assert(">"@ =~= operator_chars(Operator::GreaterThan));
        assert(">="@ =~= operator_chars(Operator::GreaterThanEqualTo));
        assert("!"@ =~= operator_chars(Operator::NotEqualTo));
    }
    match op {
        Operator::LessThan => "<",
        Operator::LessThanEqualTo => "<=",
        Operator::EqualTo => "=",
        Operator::GreaterThan => ">",
        Operator::GreaterThanEqualTo => ">=",
        Operator::NotEqualTo => "!",
    }
}

/// The prose rendering of a comparison operator.
pub open spec fn operator_prose(op: Operator) -> Seq<char> {
    match op {
        Operator::LessThan => "fewer than"@,
        Operator::LessThanEqualTo => "at most"@,
        Operator::EqualTo => "exactly"@,
        Operator::GreaterThan => "more than"@,
        Operator::GreaterThanEqualTo => "at least"@,
        Operator::NotEqualTo => "not"@,
    }
}

impl Operator {
    /// The symbol this operator is written as.
    pub fn symbol(&self) -> (r: String)
        ensures
            r@ == operator_chars(*self),
    {
        String::from_str(operator_symbol(self))
    }

    /// The operator as report prose, e.g. "at least".
    pub fn print(&self) -> (r: String)
        ensures
            r@ == operator_prose(*self),
    {
        match self {
            Operator::LessThan => String::from_str("fewer than"),
            Operator::LessThanEqualTo => String::from_str("at most"),
            Operator::EqualTo => String::from_str("exactly"),
            Operator::GreaterThan => String::from_str("more than"),
            Operator::GreaterThanEqualTo => String::from_str("at least"),
            Operator::NotEqualTo => String::from_str("not"),
        }
    }
}

/// Renders a number in base ten as an owned string.
pub fn u64_to_string(n: u64) -> (r: String)
    ensures
        r@ == dec_digits(n as nat),
{
    let v = u64_to_chars(n);
    string_of(&v)
}

/// Renders a decimal count of hundredths with two fractional digits.
pub fn decimal_string(h: u64) -> (r: String)
    ensures
        r@ == decimal_chars(h),
{
    let mut v = u64_to_chars(h / 100);
    v.push('.');
    v.push(digit_to_char((h / 10) % 10));
    v.push(digit_to_char(h % 10));
    proof {
        assert(v@ =~= decimal_chars(h));
    }
    string_of(&v)
}

/// Renders a value in its canonical token form.
pub fn print_value_canonical(v: &Value) -> (r: String)
    ensures
        r@ == spec_print_value(v@),
{
    match v {
        Value::Command(c) => String::from_str(command_text(c)),
        Value::String(s) => {
            let mut out = String::new();
            crate::text::push_char(&mut out, '"');
            out.append(s.as_str());
            crate::text::push_char(&mut out, '"');
            proof {
                assert(out@ =~= seq!['"'] + s@ + seq!['"']);
            }
            out
        },
        Value::Integer(n) => u64_to_string(*n),
        Value::Decimal(d) => decimal_string(d.hundredths),
    }
}

/// The prose rendering of a non-command value: quoted strings, small
/// integers as words, decimals with two fractional digits.
pub open spec fn value_prose(v: ValueView) -> Seq<char> {
    match v {
        ValueView::Command(_) => Seq::empty(),
        ValueView::Str(s) => seq!['\u{201c}'] + s + seq!['\u{201d}'],
        ValueView::Integer(n) => if n == 0 {
            "zero"@
        } else if n == 1 {
            "one"@
        } else if n == 2 {
            "two"@
        } else if n == 3 {
            "three"@
        } else if n == 4 {
            "four"@
        } else if n == 5 {
            "five"@
        } else if n == 6 {
            "six"@
        } else if n == 7 {
            "seven"@
        } else if n == 8 {
            "eight"@
        } else if n == 9 {
            "nine"@
        } else if n == 10 {
            "ten"@
        } else {
            dec_digits(n as nat)
        },
        ValueView::Decimal(h) => decimal_chars(h),
    }
}

impl Value {
    /// The value as report prose; a bare command keyword has none.
    pub fn print(&self) -> (r: Result<String, PrintError>)
        ensures
            match r {
                Ok(out) => !(self@ is Command) && out@ == value_prose(self@),
                Err(_) => self@ is Command,
            },
    {
        match self {
            Value::Command(_) => Err(PrintError::Unprintable),
            Value::String(s) => {
                let mut out = String::new();
                crate::text::push_char(&mut out, '\u{201c}');
                out.append(s.as_str());
                crate::text::push_char(&mut out, '\u{201d}');
                proof {
                    assert(out@ =~= seq!['\u{201c}'] + s@ + seq!['\u{201d}']);
                }
                Ok(out)
            },
            Value::Integer(n) => {
                let n = *n;
                if n == 0 {
                    Ok(String::from_str("zero"))
                } else if n == 1 {
                    Ok(String::from_str("one"))
                } else if n == 2 {
                    Ok(String::from_str("two"))
                } else if n == 3 {
                    Ok(String::from_str("three"))
                } else if n == 4 {
                    Ok(String::from_str("four"))
                } else if n == 5 {
                    Ok(String::from_str("five"))
                } else if n == 6 {
                    Ok(String::from_str("six"))
                } else if n == 7 {
                    Ok(String::from_str("seven"))
                } else if n == 8 {
                    Ok(String::from_str("eight"))
                } else if n == 9 {
                    Ok(String::from_str("nine"))
                } else if n == 10 {
                    Ok(String::from_str("ten"))
                } else {
                    Ok(u64_to_string(n))
                }
            },
            Value::Decimal(d) => Ok(decimal_string(d.hundredths)),
        }
    }
}

/// Whether an assertion has a prose rendering: count and sum take any
/// operator; average only "more than" / "at least"; the right-hand side
/// must itself be printable.
pub open spec fn action_prose_defined(a: ActionView) -> bool {
    match (a.lhs, a.op, a.rhs) {
        (ValueView::Command(Command::Count), Some(_), Some(rhs)) => !(rhs is Command),
        (ValueView::Command(Command::Sum), Some(_), Some(rhs)) => !(rhs is Command),
        (ValueView::Command(Command::Average), Some(Operator::GreaterThan), Some(rhs)) => !(rhs
            is Command),
        (
            ValueView::Command(Command::Average),
            Some(Operator::GreaterThanEqualTo),
            Some(rhs),
        ) => !(rhs is Command),
        _ => false,
    }
}

/// The prose rendering of an assertion, e.g. "at least six".
pub open spec fn action_prose(a: ActionView) -> Seq<char> {
    match (a.lhs, a.op, a.rhs) {
        (ValueView::Command(Command::Average), Some(Operator::GreaterThan), Some(rhs)) => "above "@
            + value_prose(rhs),
        (
            ValueView::Command(Command::Average),
            Some(Operator::GreaterThanEqualTo),
            Some(rhs),
        ) => "at or above "@ + value_prose(rhs),
        (ValueView::Command(_), Some(op), Some(rhs)) => operator_prose(op) + seq![' ']
            + value_prose(rhs),
        _ => Seq::empty(),
    }
}

impl Action {
    /// The assertion as report prose, e.g. "at least six".
    pub fn print(&self) -> (r: Result<String, PrintError>)
        ensures
            match r {
                Ok(out) => action_prose_defined(self@) && out@ == action_prose(self@),
                Err(_) => !action_prose_defined(self@),
            },
    {
        match (&self.lhs, &self.op, &self.rhs) {
            (Value::Command(Command::Count), Some(op), Some(val)) => {
                let rhs = match val.print() {
                    Ok(s) => s,
                    Err(e) => {
                        return Err(e);
                    },
                };
                let mut out = op.print();
                crate::text::push_char(&mut out, ' ');
                out.append(rhs.as_str());
                proof {
                    assert(out@ =~= operator_prose(*op) + seq![' '] + value_prose(val@));
                }
                Ok(out)
            },
            (Value::Command(Command::Sum), Some(op), Some(val)) => {
                let rhs = match val.print() {
                    Ok(s) => s,
                    Err(e) => {
                        return Err(e);
                    },
                };
                let mut out = op.print();
                crate::text::push_char(&mut out, ' ');
                out.append(rhs.as_str());
                proof {
                    assert(out@ =~= operator_prose(*op) + seq![' '] + value_prose(val@));
                }
                Ok(out)
            },
            (Value::Command(Command::Average), Some(Operator::GreaterThan), Some(val)) => {
                let rhs = match val.print() {
                    Ok(s) => s,
                    Err(e) => {
                        return Err(e);
                    },
                };
                let mut out = String::from_str("above ");
                out.append(rhs.as_str());
                Ok(out)
            },
            (Value::Command(Command::Average), Some(Operator::GreaterThanEqualTo), Some(val)) => {
                let rhs = match val.print() {
                    Ok(s) => s,
                    Err(e) => {
                        return Err(e);
                    },
                };
                let mut out = String::from_str("at or above ");
                out.append(rhs.as_str());
                Ok(out)
            },
            _ => Err(PrintError::Unprintable),
        }
    }

    /// The assertion in its canonical one-line form, the form `parse`
    /// reads; fails when the operator and right-hand side are mixed.
    pub fn canonical_string(&self) -> (r: Result<String, PrintError>)
        ensures
            match r {
                Ok(out) => action_canonical(self@) && out@ == spec_print_action(self@),
                Err(_) => !action_canonical(self@),
            },
    {
        match (&self.op, &self.rhs) {
            (None, None) => Ok(print_value_canonical(&self.lhs)),
            (Some(op), Some(rhs)) => {
                let mut out = print_value_canonical(&self.lhs);
                crate::text::push_char(&mut out, ' ');
                let sym = operator_symbol(op);
                out.append(sym);
                crate::text::push_char(&mut out, ' ');
                let r = print_value_canonical(rhs);
                out.append(r.as_str());
                proof {
                    assert(out@ =~= spec_print_value(self.lhs@) + seq![' '] + operator_chars(*op)
                        + seq![' '] + spec_print_value(rhs@));
                }
                Ok(out)
            },
            _ => Err(PrintError::Unprintable),
        }
    }

    /// Whether the prose for this assertion's target should use a plural
    /// noun: any numeric target other than exactly one.
    pub fn should_pluralize(&self) -> (r: bool)
        ensures
            r == match self@.rhs {
                Some(ValueView::Integer(n)) => n != 1,
                Some(ValueView::Decimal(h)) => h != 100,
                _ => false,
            },
    {
        match &self.rhs {
            Some(Value::Integer(n)) => *n != 1,
            Some(Value::Decimal(d)) => d.hundredths != 100,
            _ => false,
        }
    }
}

/// A value's magnitude in hundredths, when it is numeric.
pub open spec fn num_hundredths(v: ValueView) -> Option<int> {
    match v {
        ValueView::Integer(n) => Some(n as int * 100),
        ValueView::Decimal(h) => Some(h as int),
        _ => None,
    }
}

/// What a comparison operator means on numbers.
pub open spec fn spec_cmp(op: Operator, a: int, b: int) -> bool {
    match op {
        Operator::LessThan => a < b,
        Operator::LessThanEqualTo => a <= b,
        Operator::EqualTo => a == b,
        Operator::GreaterThan => a > b,
        Operator::GreaterThanEqualTo => a >= b,
        Operator::NotEqualTo => a != b,
    }
}

/// The verdict of one comparison between two values: numbers are
/// compared after promotion to hundredths; strings compare only for
/// equality; an incomparable pair has no verdict.
pub open spec fn spec_eval_cmp(op: Operator, obs: ValueView, rhs: ValueView) -> Option<bool> {
    match (num_hundredths(obs), num_hundredths(rhs)) {
        (Some(x), Some(y)) => Some(spec_cmp(op, x, y)),
        _ => match (obs, rhs) {
            (ValueView::Str(x), ValueView::Str(y)) => match op {
                Operator::EqualTo => Some(x == y),
                Operator::NotEqualTo => Some(x != y),
                _ => None,
            },
            _ => None,
        },
    }
}

/// The verdict of an assertion against an observed value; a bare
/// assertion has no verdict.
pub open spec fn spec_eval_action(a: ActionView, obs: ValueView) -> Option<bool> {
    match (a.op, a.rhs) {
        (Some(op), Some(rhs)) => spec_eval_cmp(op, obs, rhs),
        _ => None,
    }
}

pub(crate) fn value_hundredths(v: &Value) -> (r: Option<u128>)
    ensures
        match r {
            Some(x) => num_hundredths(v@) == Some(x as int),
            None => num_hundredths(v@) is None,
        },
{
    match v {
        Value::Integer(n) => Some(*n as u128 * 100),
        Value::Decimal(d) => Some(d.hundredths as u128),
        _ => None,
    }
}

pub(crate) fn cmp_nums(op: &Operator, a: u128, b: u128) -> (r: bool)
    ensures
        r == spec_cmp(*op, a as int, b as int),
{
    match op {
        Operator::LessThan => a < b,
        Operator::LessThanEqualTo => a <= b,
        Operator::EqualTo => a == b,
        Operator::GreaterThan => a > b,
        Operator::GreaterThanEqualTo => a >= b,
        Operator::NotEqualTo => a != b,
    }
}

/// Applies one comparison between two values.
pub fn eval_cmp(op: &Operator, observed: &Value, rhs: &Value) -> (r: Option<bool>)
    ensures
        r == spec_eval_cmp(*op, observed@, rhs@),
{
    match (value_hundredths(observed), value_hundredths(rhs)) {
        (Some(x), Some(y)) => Some(cmp_nums(op, x, y)),
        _ => {
            match (observed, rhs) {
                (Value::String(x), Value::String(y)) => {
                    match op {
                        Operator::EqualTo => Some(String::eq(x, y)),
                        Operator::NotEqualTo => Some(!String::eq(x, y)),
                        _ => None,
                    }
                },
                _ => None,
            }
        },
    }
}

impl Action {
    /// Applies the assertion's comparison to an observed value; `None`
    /// when the assertion is bare or the pair cannot be compared.
    pub fn evaluate(&self, observed: &Value) -> (r: Option<bool>)
        ensures
            r == spec_eval_action(self@, observed@),
    {
        match (&self.op, &self.rhs) {
            (Some(op), Some(rhs)) => eval_cmp(op, observed, rhs),
            _ => None,
        }
    }
}


/// A token character that never ends or quotes a token.
pub open spec fn plain_char(c: char) -> bool {
    !is_space(c) && c != '"'
}

pub open spec fn plain_token(t: Seq<char>) -> bool {
    t.len() > 0 && forall|i: int| 0 <= i < t.len() ==> plain_char(#[trigger] t[i])
}

proof fn lemma_fold_append(st: SplitState, a: Seq<char>, b: Seq<char>)
    ensures
        split_fold(st, a + b) == split_fold(split_fold(st, a), b),
    decreases a.len(),
{
    if a.len() == 0 {
        assert(a + b =~= b);
        assert(split_fold(st, a) == st);
    } else {
        assert((a + b)[0] == a[0]);
        assert((a + b).drop_first() =~= a.drop_first() + b);
        lemma_fold_append(split_step(st, a[0]), a.drop_first(), b);
    }
}

/// Plain characters outside a quoted segment simply accumulate.
proof fn lemma_fold_plain(st: SplitState, t: Seq<char>)
    requires
        !st.in_str,
        forall|i: int| 0 <= i < t.len() ==> plain_char(#[trigger] t[i]),
    ensures
        split_fold(st, t) == (SplitState {
            in_str: false,
            current: st.current + t,
            done: st.done,
        }),
    decreases t.len(),
{
    if t.len() == 0 {
        assert(st.current + t =~= st.current);
    } else {
        let st2 = split_step(st, t[0]);
        assert(st2.current == st.current.push(t[0]));
        let rest = t.drop_first();
        assert(forall|i: int| 0 <= i < rest.len() ==> plain_char(#[trigger] rest[i]));
        lemma_fold_plain(st2, rest);
        assert(st.current.push(t[0]) + rest =~= st.current + t);
    }
}

/// Inside a quoted segment every character accumulates.
proof fn lemma_fold_in_str(st: SplitState, t: Seq<char>)
    requires
        st.in_str,
        forall|i: int| 0 <= i < t.len() ==> (#[trigger] t[i]) != '"',
    ensures
        split_fold(st, t) == (SplitState {
            in_str: true,
            current: st.current + t,
            done: st.done,
        }),
    decreases t.len(),
{
    if t.len() == 0 {
        assert(st.current + t =~= st.current);
    } else {
        let st2 = split_step(st, t[0]);
        assert(st2.current == st.current.push(t[0]));
        let rest = t.drop_first();
        assert(forall|i: int| 0 <= i < rest.len() ==> (#[trigger] rest[i]) != '"');
        lemma_fold_in_str(st2, rest);
        assert(st.current.push(t[0]) + rest =~= st.current + t);
    }
}

/// A quoted segment accumulates its inner characters and leaves quote
/// mode the way it entered.
proof fn lemma_fold_quoted(st: SplitState, inner: Seq<char>)
    requires
        !st.in_str,
        forall|i: int| 0 <= i < inner.len() ==> (#[trigger] inner[i]) != '"',
    ensures
        split_fold(st, seq!['"'] + inner + seq!['"']) == (SplitState {
            in_str: false,
            current: st.current + inner,
            done: st.done,
        }),
{
    let q = seq!['"'];
    lemma_fold_append(st, q, inner + q);
    assert(q + (inner + q) =~= seq!['"'] + inner + seq!['"']);
    assert(split_fold(st, q) == split_step(st, '"')) by {
        assert(q[0] == '"');
        assert(q.drop_first() =~= Seq::<char>::empty());
        assert(split_fold(split_step(st, '"'), q.drop_first()) == split_step(st, '"'));
    }
    let st1 = split_step(st, '"');
    assert(st1.in_str);
    lemma_fold_append(st1, inner, q);
    lemma_fold_in_str(st1, inner);
    let st2 = SplitState { in_str: true, current: st.current + inner, done: st.done };
    assert(split_fold(st2, q) == split_step(st2, '"')) by {
        assert(q[0] == '"');
        assert(q.drop_first() =~= Seq::<char>::empty());
        assert(split_fold(split_step(st2, '"'), q.drop_first()) == split_step(st2, '"'));
    }
}

/// A token with no whitespace anywhere trims to itself.
proof fn lemma_trim_plain(t: Seq<char>)
    requires
        forall|i: int| 0 <= i < t.len() ==> !is_space(#[trigger] t[i]),
    ensures
        spec_trim(t) == t,
{
    crate::text::lemma_trim_start_at(t, 0);
    crate::text::lemma_trim_end_at(t, t.len() as int);
}


proof fn lemma_digit_char_plain(d: int)
    requires
        0 <= d <= 9,
    ensures
        is_digit(digit_char(d)),
        plain_char(digit_char(d)),
        digit_char(d) != '.',
{
}

proof fn lemma_dec_digits_plain(n: nat)
    ensures
        forall|i: int|
            0 <= i < dec_digits(n).len() ==> is_digit(#[trigger] dec_digits(n)[i]) && plain_char(
                dec_digits(n)[i],
            ) && dec_digits(n)[i] != '.',
    decreases n,
{
    lemma_dec_digits_val(n);
    if n < 10 {
        lemma_digit_char_plain(n as int);
    } else {
        lemma_dec_digits_plain(n / 10);
        lemma_digit_char_plain((n % 10) as int);
        assert forall|i: int|
            0 <= i < dec_digits(n).len() implies is_digit(#[trigger] dec_digits(n)[i])
            && plain_char(dec_digits(n)[i]) && dec_digits(n)[i] != '.' by {
            if i < dec_digits(n / 10).len() {
                assert(dec_digits(n)[i] == dec_digits(n / 10)[i]);
            } else {
                assert(dec_digits(n)[i] == digit_char((n % 10) as int));
            }
        }
    }
}

proof fn lemma_command_chars_facts(c: Command)
    ensures
        plain_token(command_chars(c)),
        !is_digit(command_chars(c)[0]),
        forall|i: int| 0 <= i < command_chars(c).len() ==> (#[trigger] command_chars(c)[i]) != '.',
        spec_parse_command(command_chars(c)) == Some(c),
{
    let t = command_chars(c);
    lemma_trim_plain_local(t);
    assert(command_chars(Command::Count).len() == 5);
    assert(command_chars(Command::Sum).len() == 3);
    assert(command_chars(Command::Average).len() == 7);
    assert(command_chars(Command::Minimum).len() == 7);
    assert(command_chars(Command::Maximum).len() == 7);
    assert(command_chars(Command::Average)[0] == 'a');
    assert(command_chars(Command::Minimum)[0] == 'm');
    assert(command_chars(Command::Minimum)[1] == 'i');
    assert(command_chars(Command::Maximum)[1] == 'a');
}

proof fn lemma_trim_plain_local(t: Seq<char>)
    requires
        forall|i: int| 0 <= i < t.len() ==> !is_space(#[trigger] t[i]),
    ensures
        spec_trim(t) == t,
{
    crate::text::lemma_trim_start_at(t, 0);
    crate::text::lemma_trim_end_at(t, t.len() as int);
}

proof fn lemma_operator_chars_facts(op: Operator)
    ensures
        plain_token(operator_chars(op)),
        spec_parse_operator(operator_chars(op)) == Some(op),
{
    assert(operator_chars(Operator::LessThan)[0] == '<');
    assert(operator_chars(Operator::LessThanEqualTo)[0] == '<');
    assert(operator_chars(Operator::LessThanEqualTo)[1] == '=');
    assert(operator_chars(Operator::EqualTo)[0] == '=');
    assert(operator_chars(Operator::GreaterThan)[0] == '>');
    assert(operator_chars(Operator::GreaterThanEqualTo)[0] == '>');
    assert(operator_chars(Operator::GreaterThanEqualTo)[1] == '=');
    assert(operator_chars(Operator::NotEqualTo)[0] == '!');
}

proof fn lemma_find_dot_sound(s: Seq<char>)
    ensures
        (find_dot(s) matches Some(i) ==> 0 <= i < s.len() && s[i] == '.'),
    decreases s.len(),
{
    if s.len() > 0 && s[0] != '.' {
        lemma_find_dot_sound(s.drop_first());
    }
}

/// A value survives printing and re-parsing.
pub open spec fn value_round_trippable(v: ValueView) -> bool {
    match v {
        ValueView::Str(s) => spec_parse_value(s) == ValueView::Str(s) && s.len() > 0 && spec_trim(
            s,
        ) == s && (forall|i: int| 0 <= i < s.len() ==> (#[trigger] s[i]) != '"'),
        _ => true,
    }
}

proof fn lemma_value_parse_print(v: ValueView)
    requires
        value_round_trippable(v),
        !(v is Str),
    ensures
        plain_token(spec_print_value(v)),
        spec_parse_value(spec_print_value(v)) == v,
{
    let t = spec_print_value(v);
    match v {
        ValueView::Command(c) => {
            lemma_command_chars_facts(c);
            assert(!all_digits(t)) by {
                assert(!is_digit(t[0]));
            }
            lemma_find_dot_none(t);
        },
        ValueView::Integer(n) => {
            lemma_dec_digits_val(n as nat);
            lemma_dec_digits_plain(n as nat);
            crate::text::lemma_digits_val_nonneg(t);
            assert(spec_parse_u64(t) == Some(n));
        },
        ValueView::Decimal(h) => {
            let whole = dec_digits((h / 100) as nat);
            let d = whole.len() as int;
            lemma_dec_digits_val((h / 100) as nat);
            lemma_dec_digits_plain((h / 100) as nat);
            lemma_digit_char_plain(((h / 10) % 10) as int);
            lemma_digit_char_plain((h % 10) as int);
            assert(t[d] == '.');
            assert(forall|i: int| 0 <= i < d ==> (#[trigger] t[i]) == whole[i]);
            assert(!all_digits(t)) by {
                assert(!is_digit(t[d]));
            }
            assert(spec_parse_u64(t) is None);
            lemma_find_dot_at(t, d);
            assert(t.take(d) =~= whole);
            let frac = t.skip(d + 1);
            assert(frac =~= seq![
                digit_char(((h / 10) % 10) as int),
                digit_char((h % 10) as int),
            ]);
            assert(frac.len() == 2);
            assert(all_digits(frac)) by {
                assert(is_digit(frac[0]));
                assert(is_digit(frac[1]));
            }
            assert(digits_val(frac) == ((h / 10) % 10) * 10 + (h % 10)) by {
                assert(frac.drop_last() =~= seq![digit_char(((h / 10) % 10) as int)]);
                assert(frac.drop_last().drop_last() =~= Seq::<char>::empty());
                assert(digits_val(Seq::<char>::empty()) == 0);
                assert(frac.last() == digit_char((h % 10) as int));
                assert(frac.drop_last().last() == digit_char(((h / 10) % 10) as int));
                assert(digit_val(digit_char((h % 10) as int)) == (h % 10) as int);
                assert(digit_val(digit_char(((h / 10) % 10) as int)) == ((h / 10) % 10) as int);
                let one = seq![digit_char(((h / 10) % 10) as int)];
                assert(one.drop_last() =~= Seq::<char>::empty());
                assert(one.last() == digit_char(((h / 10) % 10) as int));
                assert(digits_val(one) == digit_val(digit_char(((h / 10) % 10) as int)));
                assert(digits_val(frac.drop_last()) == digits_val(one));
                assert(digits_val(frac) == digits_val(frac.drop_last()) * 10 + digit_val(
                    frac.last(),
                ));
            }
            assert(((h as int) / 10 % 10) * 10 + (h as int) % 10 == (h as int) % 100)
                by (nonlinear_arith);
            assert(digits_val(whole) == h / 100);
            assert(digits_val(whole) * 100 + digits_val(frac) * 1 == h as int) by {
                vstd::arithmetic::div_mod::lemma_fundamental_div_mod(h as int, 100);
            }
            assert(spec_parse_decimal(t) == Some(h));
            assert(plain_token(t)) by {
                assert forall|i: int| 0 <= i < t.len() implies plain_char(#[trigger] t[i]) by {
                    if i < d {
                        assert(t[i] == whole[i]);
                    } else if i == d {
                        assert(t[i] == '.');
                    } else {
                        assert(t[i] == frac[i - d - 1]);
                    }
                }
            }
        },
        ValueView::Str(_) => {},
    }
}

/// An assertion survives printing and re-parsing: the operator and
/// right-hand side are both present or both absent, and any string
/// values are themselves round-trippable tokens.
pub open spec fn action_round_trippable(a: ActionView) -> bool {
    &&& action_canonical(a)
    &&& value_round_trippable(a.lhs)
    &&& match a.rhs {
        Some(r) => value_round_trippable(r),
        None => true,
    }
}

proof fn lemma_fold_space(st: SplitState)
    ensures
        split_fold(st, seq![' ']) == split_step(st, ' '),
{
    let q = seq![' '];
    assert(q[0] == ' ');
    assert(q.drop_first() =~= Seq::<char>::empty());
    assert(split_fold(split_step(st, ' '), q.drop_first()) == split_step(st, ' '));
}

/// What printing one value hands the tokenizer: the token's content,
/// and the fold state after reading it.
proof fn lemma_fold_value(st: SplitState, v: ValueView)
    requires
        !st.in_str,
        value_round_trippable(v),
    ensures
        split_fold(st, spec_print_value(v)) == (SplitState {
            in_str: false,
            current: st.current + token_content(v),
            done: st.done,
        }),
        token_content(v).len() > 0,
        spec_trim(token_content(v)) == token_content(v),
        spec_parse_value(token_content(v)) == v,
    decreases 0int,
{
    match v {
        ValueView::Str(s) => {
            lemma_fold_quoted(st, s);
        },
        _ => {
            lemma_value_parse_print(v);
            let t = spec_print_value(v);
            lemma_fold_plain(st, t);
            lemma_trim_plain_local(t);
        },
    }
}

/// The characters of a printed value that survive tokenization: the
/// inner characters of a quoted string, the whole token otherwise.
pub open spec fn token_content(v: ValueView) -> Seq<char> {
    match v {
        ValueView::Str(s) => s,
        _ => spec_print_value(v),
    }
}

/// THE ROUND-TRIP LAW: parsing inverts printing. Every canonical
/// assertion whose string values are themselves plain, self-parsing
/// tokens reads back from its canonical rendering as exactly itself.
pub proof fn lemma_parse_print_round_trip(a: ActionView)
    requires
        action_round_trippable(a),
    ensures
        spec_parse_action(spec_print_action(a)) == Ok::<ActionView, ParseError>(a),
{
    let p = spec_print_action(a);
    match (a.op, a.rhs) {
        (Some(op), Some(rhs)) => {
            let t1 = spec_print_value(a.lhs);
            let sym = operator_chars(op);
            let t3 = spec_print_value(rhs);
            let sp = seq![' '];
            assert(p =~= t1 + (sp + (sym + (sp + t3))));
            lemma_fold_append(split_init(), t1, sp + (sym + (sp + t3)));
            lemma_fold_value(split_init(), a.lhs);
            let st1 = split_fold(split_init(), t1);
            assert(st1.current =~= token_content(a.lhs));
            lemma_fold_append(st1, sp, sym + (sp + t3));
            lemma_fold_space(st1);
            let st2 = split_fold(st1, sp);
            assert(st2.done =~= seq![token_content(a.lhs)]);
            assert(st2.current.len() == 0);
            lemma_fold_append(st2, sym, sp + t3);
            lemma_operator_chars_facts(op);
            lemma_fold_plain(st2, sym);
            let st3 = split_fold(st2, sym);
            assert(st3.current =~= sym);
            lemma_fold_append(st3, sp, t3);
            lemma_fold_space(st3);
            let st4 = split_fold(st3, sp);
            lemma_trim_plain_local(sym);
            assert(st4.done =~= seq![token_content(a.lhs), sym]);
            assert(st4.current.len() == 0);
            lemma_fold_value(st4, rhs);
            let st5 = split_fold(st4, t3);
            assert(st5.current =~= token_content(rhs));
            assert(split_fold(split_init(), p) == st5);
            let toks = spec_split(p);
            assert(toks =~= seq![token_content(a.lhs), sym, token_content(rhs)]);
            assert(spec_parse_operator(toks[1]) == Some(op));
            assert(spec_parse_value(toks[0]) == a.lhs);
            assert(spec_parse_value(toks[2]) == rhs);
        },
        (None, None) => {
            lemma_fold_value(split_init(), a.lhs);
            let st1 = split_fold(split_init(), spec_print_value(a.lhs));
            assert(st1.current =~= token_content(a.lhs));
            let toks = spec_split(p);
            assert(toks =~= seq![token_content(a.lhs)]);
            assert(spec_parse_value(toks[0]) == a.lhs);
        },
        _ => {},
    }
}

} // verus!
