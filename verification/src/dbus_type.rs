//! The D-Bus signature grammar: a tree of wire types, its canonical text, and
//! the parser that reads the text back.

use crate::text::{chars_of, debug_char, debug_str, debug_text_of_char, debug_text_of_str};
use vstd::prelude::*;

verus! {

/// The greatest number of containers (arrays, structs, dictionary entries)
/// that may enclose one another in a signature that the parser accepts.
pub const MAX_NESTING_DEPTH: usize = 64;

/// A fully specified wire type, as a mathematical value.
///
/// This is the view of [`DbusType`]: contracts speak of it.
pub ghost enum WireType {
    Byte,
    Boolean,
    Int16,
    UInt16,
    Int32,
    UInt32,
    Int64,
    UInt64,
    Double,
    String,
    ObjectPath,
    Signature,
    Array(Box<WireType>),
    Struct(Seq<WireType>),
    Variant,
    DictEntry(Box<WireType>, Box<WireType>),
}

/// A fully specified D-Bus type: the types inside a container are part of it.
#[derive(Debug, PartialEq, Eq, PartialOrd, Ord, Hash)]
pub enum DbusType {
    Byte,
    Boolean,
    Int16,
    UInt16,
    Int32,
    UInt32,
    Int64,
    UInt64,
    Double,
    String,
    ObjectPath,
    Signature,
    Array(Box<DbusType>),
    Struct(Vec<DbusType>),
    Variant,
    DictEntry(Box<DbusType>, Box<DbusType>),
}

impl View for DbusType {
    type V = WireType;

    open spec fn view(&self) -> WireType {
        wire_type(*self)
    }
}

/// The mathematical value of a type.
pub open spec fn wire_type(t: DbusType) -> WireType
    decreases t,
{
    match t {
        DbusType::Byte => WireType::Byte,
        DbusType::Boolean => WireType::Boolean,
        DbusType::Int16 => WireType::Int16,
        DbusType::UInt16 => WireType::UInt16,
        DbusType::Int32 => WireType::Int32,
        DbusType::UInt32 => WireType::UInt32,
        DbusType::Int64 => WireType::Int64,
        DbusType::UInt64 => WireType::UInt64,
        DbusType::Double => WireType::Double,
        DbusType::String => WireType::String,
        DbusType::ObjectPath => WireType::ObjectPath,
        DbusType::Signature => WireType::Signature,
        DbusType::Array(content) => WireType::Array(Box::new(wire_type(*content))),
        DbusType::Struct(types) => WireType::Struct(
            Seq::new(
                types.len() as nat,
                |i: int|
                    if 0 <= i < types.len() {
                        wire_type(types[i])
                    } else {
                        WireType::Byte
                    },
            ),
        ),
        DbusType::Variant => WireType::Variant,
        DbusType::DictEntry(key, val) => WireType::DictEntry(
            Box::new(wire_type(*key)),
            Box::new(wire_type(*val)),
        ),
    }
}

/// The value of a struct type holds the values of its element types.
pub proof fn lemma_view_struct(types: Vec<DbusType>)
    ensures
        DbusType::Struct(types)@ == WireType::Struct(wire_types(types@)),
{
    assert(DbusType::Struct(types)@->Struct_0 =~= wire_types(types@));
}

/// The values of a sequence of types, in order.
pub open spec fn wire_types(types: Seq<DbusType>) -> Seq<WireType> {
    Seq::new(types.len(), |i: int| wire_type(types[i]))
}

impl Clone for DbusType {
    fn clone(&self) -> (copy: Self)
        ensures
            copy@ == self@,
        decreases self,
    {
        match self {
            DbusType::Byte => DbusType::Byte,
            DbusType::Boolean => DbusType::Boolean,
            DbusType::Int16 => DbusType::Int16,
            DbusType::UInt16 => DbusType::UInt16,
            DbusType::Int32 => DbusType::Int32,
            DbusType::UInt32 => DbusType::UInt32,
            DbusType::Int64 => DbusType::Int64,
            DbusType::UInt64 => DbusType::UInt64,
            DbusType::Double => DbusType::Double,
            DbusType::String => DbusType::String,
            DbusType::ObjectPath => DbusType::ObjectPath,
            DbusType::Signature => DbusType::Signature,
            DbusType::Array(content) => DbusType::Array(Box::new((&**content).clone())),
            DbusType::Struct(types) => {
                let mut copies: Vec<DbusType> = Vec::new();
                let mut i: usize = 0;
                while i < types.len()
                    invariant
                        i <= types.len(),
                        copies.len() == i,
                        *self == DbusType::Struct(*types),
                        forall|j: int| 0 <= j < i ==> (#[trigger] copies[j])@ == types[j]@,
                    decreases types.len() - i,
                {
                    proof {
                        assert(decreases_to!(*self => self->Struct_0[i as int]));
                    }
                    copies.push(types[i].clone());
                    i += 1;
                }
                proof {
                    lemma_view_struct(copies);
                    lemma_view_struct(*types);
                    assert(wire_types(copies@) =~= wire_types(types@));
                }
                DbusType::Struct(copies)
            },
            DbusType::Variant => DbusType::Variant,
            DbusType::DictEntry(key, val) => DbusType::DictEntry(
                Box::new((&**key).clone()),
                Box::new((&**val).clone()),
            ),
        }
    }
}

/// The type that a one-character code stands for, where the character is
/// the code of a type without parts.
pub open spec fn type_of_code(c: char) -> Option<WireType> {
    if c == 'y' {
        Some(WireType::Byte)
    } else if c == 'b' {
        Some(WireType::Boolean)
    } else if c == 'n' {
        Some(WireType::Int16)
    } else if c == 'q' {
        Some(WireType::UInt16)
    } else if c == 'i' {
        Some(WireType::Int32)
    } else if c == 'u' {
        Some(WireType::UInt32)
    } else if c == 'x' {
        Some(WireType::Int64)
    } else if c == 't' {
        Some(WireType::UInt64)
    } else if c == 'd' {
        Some(WireType::Double)
    } else if c == 's' {
        Some(WireType::String)
    } else if c == 'o' {
        Some(WireType::ObjectPath)
    } else if c == 'g' {
        Some(WireType::Signature)
    } else if c == 'v' {
        Some(WireType::Variant)
    } else {
        None
    }
}

/// The canonical signature text of a type.
pub open spec fn stringify_spec(t: WireType) -> Seq<char>
    decreases t,
{
    match t {
        WireType::Byte => seq!['y'],
        WireType::Boolean => seq!['b'],
        WireType::Int16 => seq!['n'],
        WireType::UInt16 => seq!['q'],
        WireType::Int32 => seq!['i'],
        WireType::UInt32 => seq!['u'],
        WireType::Int64 => seq!['x'],
        WireType::UInt64 => seq!['t'],
        WireType::Double => seq!['d'],
        WireType::String => seq!['s'],
        WireType::ObjectPath => seq!['o'],
        WireType::Signature => seq!['g'],
        WireType::Variant => seq!['v'],
        WireType::Array(content) => seq!['a'] + stringify_spec(*content),
        WireType::Struct(types) => seq!['('] + stringify_all_spec(types) + seq![')'],
        WireType::DictEntry(key, val) => seq!['{'] + stringify_spec(*key) + stringify_spec(*val)
            + seq!['}'],
    }
}

/// The signature text of a sequence of types: their texts, one after another.
pub open spec fn stringify_all_spec(types: Seq<WireType>) -> Seq<char>
    decreases types,
{
    if types.len() == 0 {
        Seq::empty()
    } else {
        stringify_all_spec(types.drop_last()) + stringify_spec(types.last())
    }
}

/// How many containers enclose the most deeply enclosed type of `t`.
pub open spec fn nesting_depth(t: WireType) -> nat
    decreases t,
{
    match t {
        WireType::Array(content) => 1 + nesting_depth(*content),
        WireType::Struct(types) => 1 + max_nesting_depth(types),
        WireType::DictEntry(key, val) => 1 + if nesting_depth(*key) >= nesting_depth(*val) {
            nesting_depth(*key)
        } else {
            nesting_depth(*val)
        },
        _ => 0,
    }
}

/// The greatest nesting depth among `types`, 0 where there are none.
pub open spec fn max_nesting_depth(types: Seq<WireType>) -> nat
    decreases types,
{
    if types.len() == 0 {
        0
    } else {
        let before = max_nesting_depth(types.drop_last());
        let last = nesting_depth(types.last());
        if before >= last {
            before
        } else {
            last
        }
    }
}

/// Why a text is not a signature.
pub ghost enum GrammarError {
    /// The text ends where a type is expected.
    UnexpectedEnd,
    /// The character stands where a type is expected and begins none.
    UnexpectedChar(char),
    /// The text ends inside a struct.
    UnclosedStruct,
    /// A dictionary entry has its two types and then, in place of `}`, this
    /// remainder.
    UnclosedDictEntry(Seq<char>),
    /// More than the permitted number of containers enclose one another.
    TooDeep,
}

/// What parsing one type from the front of `s` gives: the type and the text
/// that follows it, or the reason why `s` begins with no type. At most `depth`
/// containers may enclose one another.
///
/// The remainder of a successful parse is always shorter than the text (see
/// [`lemma_parse_sound`]); the tests of that below are what the termination
/// of this definition rests on.
pub open spec fn parse_spec(s: Seq<char>, depth: nat) -> Result<(WireType, Seq<char>), GrammarError>
    decreases s.len(), 0nat,
{
    if s.len() == 0 {
        Err(GrammarError::UnexpectedEnd)
    } else if type_of_code(s[0]) is Some {
        Ok((type_of_code(s[0])->Some_0, s.skip(1)))
    } else if s[0] != 'a' && s[0] != '(' && s[0] != '{' {
        Err(GrammarError::UnexpectedChar(s[0]))
    } else if depth == 0 {
        Err(GrammarError::TooDeep)
    } else if s[0] == 'a' {
        match parse_spec(s.skip(1), (depth - 1) as nat) {
            Ok((content, rest)) => Ok((WireType::Array(Box::new(content)), rest)),
            Err(e) => Err(e),
        }
    } else if s[0] == '(' {
        match parse_struct_spec(s.skip(1), (depth - 1) as nat) {
            Ok((types, rest)) => Ok((WireType::Struct(types), rest)),
            Err(e) => Err(e),
        }
    } else {
        match parse_spec(s.skip(1), (depth - 1) as nat) {
            Err(e) => Err(e),
            Ok((key, after_key)) => if after_key.len() >= s.len() {
                Err(GrammarError::UnexpectedEnd)
            } else {
                match parse_spec(after_key, (depth - 1) as nat) {
                    Err(e) => Err(e),
                    Ok((val, after_val)) => if after_val.len() > 0 && after_val[0] == '}' {
                        Ok((WireType::DictEntry(Box::new(key), Box::new(val)), after_val.skip(1)))
                    } else {
                        Err(GrammarError::UnclosedDictEntry(after_val))
                    },
                }
            },
        }
    }
}

/// What parsing the inside of a struct gives, from behind its `(` up to and
/// including its `)`: the element types and the text behind the `)`.
pub open spec fn parse_struct_spec(s: Seq<char>, depth: nat) -> Result<
    (Seq<WireType>, Seq<char>),
    GrammarError,
>
    decreases s.len(), 1nat,
{
    if s.len() == 0 {
        Err(GrammarError::UnclosedStruct)
    } else if s[0] == ')' {
        Ok((Seq::empty(), s.skip(1)))
    } else {
        match parse_spec(s, depth) {
            Err(e) => Err(e),
            Ok((first, rest)) => if rest.len() >= s.len() {
                Err(GrammarError::UnexpectedEnd)
            } else {
                match parse_struct_spec(rest, depth) {
                    Err(e) => Err(e),
                    Ok((others, after)) => Ok((seq![first] + others, after)),
                }
            },
        }
    }
}

/// What parsing a whole text as a sequence of types gives.
pub open spec fn parse_all_spec(s: Seq<char>, depth: nat) -> Result<Seq<WireType>, GrammarError>
    decreases s.len(),
{
    if s.len() == 0 {
        Ok(Seq::empty())
    } else {
        match parse_spec(s, depth) {
            Err(e) => Err(e),
            Ok((first, rest)) => if rest.len() >= s.len() {
                Err(GrammarError::UnexpectedEnd)
            } else {
                match parse_all_spec(rest, depth) {
                    Err(e) => Err(e),
                    Ok(others) => Ok(seq![first] + others),
                }
            },
        }
    }
}

impl GrammarError {
    /// The message that reports this error.
    pub open spec fn message(self) -> Seq<char> {
        match self {
            GrammarError::UnexpectedEnd => "unexpected end of D-Bus type string"@,
            GrammarError::UnexpectedChar(c) => unexpected_char_text(debug_text_of_char(c)),
            GrammarError::UnclosedStruct =>
                "unexpected end of D-Bus type string before end of array"@,
            GrammarError::UnclosedDictEntry(rest) => unclosed_dict_entry_text(
                debug_text_of_str(rest),
            ),
            GrammarError::TooDeep => "D-Bus type string is nested too deeply"@,
        }
    }
}

/// The message on a character that begins no type, given the character as
/// `{:?}` writes it.
pub open spec fn unexpected_char_text(shown: Seq<char>) -> Seq<char> {
    "unexpected char "@ + shown + " in D-Bus type representation"@
}

/// The message on a dictionary entry that does not end in `}`, given the
/// remainder as `{:?}` writes it.
pub open spec fn unclosed_dict_entry_text(shown: Seq<char>) -> Seq<char> {
    "expected `}` char to end dictionary in D-Bus type but remainder is "@ + shown
}

/// Builds the message on a character that begins no type from the character
/// as `{:?}` writes it.
pub fn unexpected_char_message(shown: &str) -> (message: String)
    ensures
        message@ == unexpected_char_text(shown@),
{
    let mut message = String::from_str("unexpected char ");
    message.append(shown);
    message.append(" in D-Bus type representation");
    message
}

/// Builds the message on a dictionary entry that does not end in `}` from the
/// remainder as `{:?}` writes it.
pub fn unclosed_dict_entry_message(shown: &str) -> (message: String)
    ensures
        message@ == unclosed_dict_entry_text(shown@),
{
    let mut message = String::from_str(
        "expected `}` char to end dictionary in D-Bus type but remainder is ",
    );
    message.append(shown);
    message
}

/// Why and where reading a signature stopped.
enum Failure {
    UnexpectedEnd,
    UnexpectedChar(char),
    UnclosedStruct,
    /// Holds the position at which `}` was expected.
    UnclosedDictEntry(usize),
    TooDeep,
}

impl Failure {
    /// The error that this failure is, in a text of the given characters.
    spec fn error(self, chars: Seq<char>) -> GrammarError {
        match self {
            Failure::UnexpectedEnd => GrammarError::UnexpectedEnd,
            Failure::UnexpectedChar(c) => GrammarError::UnexpectedChar(c),
            Failure::UnclosedStruct => GrammarError::UnclosedStruct,
            Failure::UnclosedDictEntry(at) => GrammarError::UnclosedDictEntry(
                chars.skip(at as int),
            ),
            Failure::TooDeep => GrammarError::TooDeep,
        }
    }

    /// The message that reports this failure in `input`, whose characters
    /// are `chars`.
    fn message(self, input: &str, chars: &Vec<char>) -> (message: String)
        requires
            chars@ == input@,
            self matches Failure::UnclosedDictEntry(at) ==> at <= chars.len(),
        ensures
            message@ == self.error(chars@).message(),
    {
        match self {
            Failure::UnexpectedEnd => String::from_str("unexpected end of D-Bus type string"),
            Failure::UnexpectedChar(c) => {
                let shown = debug_char(c);
                unexpected_char_message(shown.as_str())
            },
            Failure::UnclosedStruct => String::from_str(
                "unexpected end of D-Bus type string before end of array",
            ),
            Failure::UnclosedDictEntry(at) => {
                let shown = debug_str(input.substring_char(at, chars.len()));
                unclosed_dict_entry_message(shown.as_str())
            },
            Failure::TooDeep => String::from_str("D-Bus type string is nested too deeply"),
        }
    }
}

/// The type that a one-character code stands for.
fn type_of(c: char) -> (t: Option<DbusType>)
    ensures
        match type_of_code(c) {
            Some(w) => t matches Some(d) && d@ == w,
            None => t is None,
        },
{
    match c {
        'y' => Some(DbusType::Byte),
        'b' => Some(DbusType::Boolean),
        'n' => Some(DbusType::Int16),
        'q' => Some(DbusType::UInt16),
        'i' => Some(DbusType::Int32),
        'u' => Some(DbusType::UInt32),
        'x' => Some(DbusType::Int64),
        't' => Some(DbusType::UInt64),
        'd' => Some(DbusType::Double),
        's' => Some(DbusType::String),
        'o' => Some(DbusType::ObjectPath),
        'g' => Some(DbusType::Signature),
        'v' => Some(DbusType::Variant),
        _ => None,
    }
}

/// The result of a struct's inside with `before` put in front of its types.
pub open spec fn with_types_before(
    before: Seq<WireType>,
    result: Result<(Seq<WireType>, Seq<char>), GrammarError>,
) -> Result<(Seq<WireType>, Seq<char>), GrammarError> {
    match result {
        Ok((types, rest)) => Ok((before + types, rest)),
        Err(e) => Err(e),
    }
}

/// Parses one type that begins at `pos`; gives it with the position behind it.
#[verifier::loop_isolation(false)]
fn parse_at(chars: &Vec<char>, pos: usize, depth: usize) -> (r: Result<(DbusType, usize), Failure>)
    requires
        pos <= chars.len(),
    ensures
        match parse_spec(chars@.skip(pos as int), depth as nat) {
            Ok((t, rest)) => r matches Ok((parsed, next)) && parsed@ == t && pos < next
                <= chars.len() && rest == chars@.skip(next as int),
            Err(e) => r matches Err(f) && f.error(chars@) == e && (
            f matches Failure::UnclosedDictEntry(at) ==> at <= chars.len()),
        },
    decreases depth,
{
    let ghost s = chars@.skip(pos as int);
    if pos == chars.len() {
        return Err(Failure::UnexpectedEnd);
    }
    let c = chars[pos];
    assert(s[0] == c);
    assert(s.skip(1) =~= chars@.skip(pos + 1));
    if let Some(t) = type_of(c) {
        return Ok((t, pos + 1));
    }
    if c != 'a' && c != '(' && c != '{' {
        return Err(Failure::UnexpectedChar(c));
    }
    if depth == 0 {
        return Err(Failure::TooDeep);
    }
    if c == 'a' {
        match parse_at(chars, pos + 1, depth - 1) {
            Ok((content, next)) => Ok((DbusType::Array(Box::new(content)), next)),
            Err(f) => Err(f),
        }
    } else if c == '(' {
        let mut types: Vec<DbusType> = Vec::new();
        let mut cur = pos + 1;
        loop
            invariant
                pos < cur <= chars.len(),
                parse_struct_spec(chars@.skip(pos + 1), (depth - 1) as nat) == with_types_before(
                    wire_types(types@),
                    parse_struct_spec(chars@.skip(cur as int), (depth - 1) as nat),
                ),
            decreases chars.len() - cur,
        {
            let ghost here = chars@.skip(cur as int);
            if cur == chars.len() {
                return Err(Failure::UnclosedStruct);
            }
            assert(here[0] == chars[cur as int]);
            if chars[cur] == ')' {
                proof {
                    lemma_view_struct(types);
                    assert(here.skip(1) =~= chars@.skip(cur + 1));
                    assert(wire_types(types@) + Seq::<WireType>::empty() =~= wire_types(types@));
                }
                return Ok((DbusType::Struct(types), cur + 1));
            }
            match parse_at(chars, cur, depth - 1) {
                Err(f) => {
                    return Err(f);
                },
                Ok((t, next)) => {
                    proof {
                        let after = parse_struct_spec(
                            chars@.skip(next as int),
                            (depth - 1) as nat,
                        );
                        assert(wire_types(types@.push(t)) =~= wire_types(types@) + seq![t@]);
                        if let Ok((others, rest)) = after {
                            assert(wire_types(types@) + (seq![t@] + others) =~= (wire_types(types@)
                                + seq![t@]) + others);
                        }
                    }
                    types.push(t);
                    cur = next;
                },
            }
        }
    } else {
        match parse_at(chars, pos + 1, depth - 1) {
            Err(f) => Err(f),
            Ok((key, after_key)) => match parse_at(chars, after_key, depth - 1) {
                Err(f) => Err(f),
                Ok((val, after_val)) => {
                    let ghost rest = chars@.skip(after_val as int);
                    if after_val < chars.len() && chars[after_val] == '}' {
                        assert(rest[0] == chars[after_val as int]);
                        assert(rest.skip(1) =~= chars@.skip(after_val + 1));
                        Ok((DbusType::DictEntry(Box::new(key), Box::new(val)), after_val + 1))
                    } else {
                        assert(after_val < chars.len() ==> rest[0] == chars[after_val as int]);
                        Err(Failure::UnclosedDictEntry(after_val))
                    }
                },
            },
        }
    }
}

impl DbusType {
    /// Parses one type from the front of a signature and returns it with the
    /// remainder of the text.
    pub fn parse(input: &str) -> (r: Result<(DbusType, &str), String>)
        ensures
            match parse_spec(input@, MAX_NESTING_DEPTH as nat) {
                Ok((t, rest)) => r matches Ok((parsed, remainder)) && parsed@ == t && remainder@
                    == rest,
                Err(e) => r matches Err(message) && message@ == e.message(),
            },
            r matches Ok((parsed, remainder)) ==> input@ == stringify_spec(parsed@) + remainder@
                && nesting_depth(parsed@) <= MAX_NESTING_DEPTH,
    {
        proof {
            lemma_parse_sound(input@, MAX_NESTING_DEPTH as nat);
        }
        let chars = chars_of(input);
        assert(chars@.skip(0) =~= input@);
        match parse_at(&chars, 0, MAX_NESTING_DEPTH) {
            Ok((parsed, next)) => Ok((parsed, input.substring_char(next, chars.len()))),
            Err(f) => Err(f.message(input, &chars)),
        }
    }

    /// Parses a whole signature: the types it lists, in order.
    pub fn parse_all(input: &str) -> (r: Result<Vec<DbusType>, String>)
        ensures
            match parse_all_spec(input@, MAX_NESTING_DEPTH as nat) {
                Ok(types) => r matches Ok(parsed) && wire_types(parsed@) == types,
                Err(e) => r matches Err(message) && message@ == e.message(),
            },
            r matches Ok(parsed) ==> input@ == stringify_all_spec(wire_types(parsed@))
                && max_nesting_depth(wire_types(parsed@)) <= MAX_NESTING_DEPTH,
    {
        proof {
            lemma_parse_all_sound(input@, MAX_NESTING_DEPTH as nat);
        }
        let chars = chars_of(input);
        let mut out: Vec<DbusType> = Vec::new();
        let mut pos: usize = 0;
        assert(chars@.skip(0) =~= input@);
        while pos < chars.len()
            invariant
                pos <= chars.len(),
                chars@ == input@,
                parse_all_spec(input@, MAX_NESTING_DEPTH as nat) == with_all_before(
                    wire_types(out@),
                    parse_all_spec(chars@.skip(pos as int), MAX_NESTING_DEPTH as nat),
                ),
            decreases chars.len() - pos,
        {
            match parse_at(&chars, pos, MAX_NESTING_DEPTH) {
                Err(f) => {
                    return Err(f.message(input, &chars));
                },
                Ok((t, next)) => {
                    proof {
                        let after = parse_all_spec(
                            chars@.skip(next as int),
                            MAX_NESTING_DEPTH as nat,
                        );
                        assert(wire_types(out@.push(t)) =~= wire_types(out@) + seq![t@]);
                        if let Ok(others) = after {
                            assert(wire_types(out@) + (seq![t@] + others) =~= (wire_types(out@)
                                + seq![t@]) + others);
                        }
                    }
                    out.push(t);
                    pos = next;
                },
            }
        }
        assert(wire_types(out@) + Seq::<WireType>::empty() =~= wire_types(out@));
        Ok(out)
    }
}

/// A text of the one character `c`, which is the character of the literal
/// `code`.
fn code_text(code: &str, c: Ghost<char>) -> (text: String)
    requires
        code@ =~= seq![c@],
    ensures
        text@ == seq![c@],
{
    String::from_str(code)
}

impl DbusType {
    /// The canonical signature text of the type, as the wire format has it.
    pub fn stringify(&self) -> (text: String)
        ensures
            text@ == stringify_spec(self@),
            nesting_depth(self@) <= MAX_NESTING_DEPTH ==> parse_spec(
                text@,
                MAX_NESTING_DEPTH as nat,
            ) == Ok::<_, GrammarError>((self@, Seq::<char>::empty())),
        decreases self,
    {
        proof {
            if nesting_depth(self@) <= MAX_NESTING_DEPTH {
                lemma_parse_stringify(self@, Seq::<char>::empty(), MAX_NESTING_DEPTH as nat);
                assert(stringify_spec(self@) + Seq::<char>::empty() =~= stringify_spec(self@));
            }
            reveal_strlit("y");
            reveal_strlit("b");
            reveal_strlit("n");
            reveal_strlit("q");
            reveal_strlit("i");
            reveal_strlit("u");
            reveal_strlit("x");
            reveal_strlit("t");
            reveal_strlit("d");
            reveal_strlit("s");
            reveal_strlit("o");
            reveal_strlit("g");
            reveal_strlit("v");
            reveal_strlit("a");
            reveal_strlit("(");
            reveal_strlit(")");
            reveal_strlit("{");
            reveal_strlit("}");
        }
        match self {
            DbusType::Byte => code_text("y", Ghost('y')),
            DbusType::Boolean => code_text("b", Ghost('b')),
            DbusType::Int16 => code_text("n", Ghost('n')),
            DbusType::UInt16 => code_text("q", Ghost('q')),
            DbusType::Int32 => code_text("i", Ghost('i')),
            DbusType::UInt32 => code_text("u", Ghost('u')),
            DbusType::Int64 => code_text("x", Ghost('x')),
            DbusType::UInt64 => code_text("t", Ghost('t')),
            DbusType::Double => code_text("d", Ghost('d')),
            DbusType::String => code_text("s", Ghost('s')),
            DbusType::ObjectPath => code_text("o", Ghost('o')),
            DbusType::Signature => code_text("g", Ghost('g')),
            DbusType::Variant => code_text("v", Ghost('v')),
            DbusType::Array(content) => {
                let mut text = code_text("a", Ghost('a'));
                text.append((&**content).stringify().as_str());
                text
            },
            DbusType::Struct(types) => {
                let mut text = code_text("(", Ghost('('));
                let mut i: usize = 0;
                proof {
                    lemma_view_struct(*types);
                    assert(wire_types(types@).take(0) =~= Seq::<WireType>::empty());
                }
                while i < types.len()
                    invariant
                        i <= types.len(),
                        *self == DbusType::Struct(*types),
                        text@ == seq!['('] + stringify_all_spec(wire_types(types@).take(i as int)),
                    decreases types.len() - i,
                {
                    proof {
                        assert(decreases_to!(*self => self->Struct_0[i as int]));
                        let upto = wire_types(types@).take(i + 1);
                        assert(upto.drop_last() =~= wire_types(types@).take(i as int));
                        assert(upto.last() == types[i as int]@);
                    }
                    text.append(types[i].stringify().as_str());
                    i += 1;
                }
                proof {
                    assert(wire_types(types@).take(i as int) =~= wire_types(types@));
                }
                text.append(")");
                text
            },
            DbusType::DictEntry(key, val) => {
                let mut text = code_text("{", Ghost('{'));
                text.append((&**key).stringify().as_str());
                text.append((&**val).stringify().as_str());
                text.append("}");
                text
            },
        }
    }
}

/// The result of parsing a sequence of types with `before` put in front.
pub open spec fn with_all_before(
    before: Seq<WireType>,
    result: Result<Seq<WireType>, GrammarError>,
) -> Result<Seq<WireType>, GrammarError> {
    match result {
        Ok(types) => Ok(before + types),
        Err(e) => Err(e),
    }
}

/// The text of two sequences of types, one after the other, is the text of
/// the first followed by the text of the second.
pub proof fn lemma_stringify_all_concat(a: Seq<WireType>, b: Seq<WireType>)
    ensures
        stringify_all_spec(a + b) == stringify_all_spec(a) + stringify_all_spec(b),
    decreases b.len(),
{
    if b.len() == 0 {
        assert(a + b =~= a);
        assert(stringify_all_spec(a) + Seq::<char>::empty() =~= stringify_all_spec(a));
    } else {
        assert((a + b).drop_last() =~= a + b.drop_last());
        assert((a + b).last() == b.last());
        lemma_stringify_all_concat(a, b.drop_last());
        assert(stringify_all_spec(a + b) =~= stringify_all_spec(a) + stringify_all_spec(b));
    }
}

/// The text of a sequence of one type is the text of that type.
pub proof fn lemma_stringify_all_one(t: WireType)
    ensures
        stringify_all_spec(seq![t]) == stringify_spec(t),
{
    assert(seq![t].drop_last() =~= Seq::<WireType>::empty());
    assert(seq![t].last() == t);
    assert(stringify_all_spec(Seq::<WireType>::empty()) =~= Seq::<char>::empty());
    assert(Seq::<char>::empty() + stringify_spec(t) =~= stringify_spec(t));
}

/// The text of the type that a code stands for is that code.
pub proof fn lemma_stringify_code(c: char)
    requires
        type_of_code(c) is Some,
    ensures
        stringify_spec(type_of_code(c)->Some_0) == seq![c],
{
}

/// The greatest nesting depth of two sequences of types, one after the other,
/// is the greater of the two greatest depths.
pub proof fn lemma_max_nesting_depth_concat(a: Seq<WireType>, b: Seq<WireType>)
    ensures
        max_nesting_depth(a + b) == if max_nesting_depth(a) >= max_nesting_depth(b) {
            max_nesting_depth(a)
        } else {
            max_nesting_depth(b)
        },
    decreases b.len(),
{
    if b.len() == 0 {
        assert(a + b =~= a);
    } else {
        assert((a + b).drop_last() =~= a + b.drop_last());
        assert((a + b).last() == b.last());
        lemma_max_nesting_depth_concat(a, b.drop_last());
    }
}

/// The greatest nesting depth of a sequence of one type is the depth of that
/// type.
pub proof fn lemma_max_nesting_depth_one(t: WireType)
    ensures
        max_nesting_depth(seq![t]) == nesting_depth(t),
{
    assert(seq![t].drop_last() =~= Seq::<WireType>::empty());
    assert(seq![t].last() == t);
    assert(max_nesting_depth(Seq::<WireType>::empty()) == 0);
}

/// No type of a sequence nests deeper than the greatest depth of the sequence.
pub proof fn lemma_max_nesting_depth_bounds(types: Seq<WireType>, i: int)
    requires
        0 <= i < types.len(),
    ensures
        nesting_depth(types[i]) <= max_nesting_depth(types),
    decreases types.len(),
{
    if i < types.len() - 1 {
        lemma_max_nesting_depth_bounds(types.drop_last(), i);
    }
}

/// The text of a type is not empty, and its first character is not `)`.
pub proof fn lemma_stringify_first(t: WireType)
    ensures
        stringify_spec(t).len() > 0,
        stringify_spec(t)[0] != ')',
{
}

/// Whatever is parsed from a text, the text is the canonical text of the
/// parsed type followed by the remainder; the type nests no deeper than
/// `depth`.
pub proof fn lemma_parse_sound(s: Seq<char>, depth: nat)
    ensures
        parse_spec(s, depth) matches Ok((t, rest)) ==> s == stringify_spec(t) + rest
            && nesting_depth(t) <= depth && rest.len() < s.len(),
    decreases s.len(), 0nat,
{
    if let Ok((t, rest)) = parse_spec(s, depth) {
        assert(s =~= seq![s[0]] + s.skip(1));
        if type_of_code(s[0]) is Some {
            lemma_stringify_code(s[0]);
        } else if s[0] == 'a' {
            lemma_parse_sound(s.skip(1), (depth - 1) as nat);
            let content = parse_spec(s.skip(1), (depth - 1) as nat)->Ok_0.0;
            assert(t == WireType::Array(Box::new(content)));
            assert(stringify_spec(t) + rest =~= seq!['a'] + (stringify_spec(content) + rest));
        } else if s[0] == '(' {
            lemma_parse_struct_sound(s.skip(1), (depth - 1) as nat);
            let types = parse_struct_spec(s.skip(1), (depth - 1) as nat)->Ok_0.0;
            assert(t == WireType::Struct(types));
            assert(stringify_spec(t) + rest =~= seq!['('] + (stringify_all_spec(types) + seq![')']
                + rest));
        } else {
            lemma_parse_sound(s.skip(1), (depth - 1) as nat);
            let (key, after_key) = parse_spec(s.skip(1), (depth - 1) as nat)->Ok_0;
            lemma_parse_sound(after_key, (depth - 1) as nat);
            let (val, after_val) = parse_spec(after_key, (depth - 1) as nat)->Ok_0;
            assert(t == WireType::DictEntry(Box::new(key), Box::new(val)));
            assert(after_val =~= seq!['}'] + rest);
            assert(stringify_spec(t) + rest =~= seq!['{'] + (stringify_spec(key) + (
            stringify_spec(val) + (seq!['}'] + rest))));
        }
    }
}

/// A text that is parsed to its end is the canonical text of the type that
/// is parsed from it.
pub proof fn lemma_stringify_parse(s: Seq<char>, depth: nat)
    ensures
        parse_spec(s, depth) matches Ok((t, rest)) ==> (rest.len() == 0 ==> stringify_spec(t)
            == s),
{
    lemma_parse_sound(s, depth);
    if let Ok((t, rest)) = parse_spec(s, depth) {
        if rest.len() == 0 {
            assert(stringify_spec(t) + rest =~= stringify_spec(t));
        }
    }
}

/// Whatever is parsed from the inside of a struct, the text is the text of
/// the element types, `)`, and the remainder; no element nests deeper than
/// `depth`.
pub proof fn lemma_parse_struct_sound(s: Seq<char>, depth: nat)
    ensures
        parse_struct_spec(s, depth) matches Ok((types, rest)) ==> s == stringify_all_spec(types)
            + seq![')'] + rest && max_nesting_depth(types) <= depth && rest.len() < s.len(),
    decreases s.len(), 1nat,
{
    if let Ok((types, rest)) = parse_struct_spec(s, depth) {
        if s[0] == ')' {
            assert(stringify_all_spec(types) =~= Seq::<char>::empty());
            assert(s =~= seq![s[0]] + s.skip(1));
            assert(s =~= stringify_all_spec(types) + seq![')'] + rest);
        } else {
            lemma_parse_sound(s, depth);
            let (first, after_first) = parse_spec(s, depth)->Ok_0;
            lemma_parse_struct_sound(after_first, depth);
            let (others, after) = parse_struct_spec(after_first, depth)->Ok_0;
            assert(types == seq![first] + others);
            lemma_stringify_all_concat(seq![first], others);
            lemma_stringify_all_one(first);
            lemma_max_nesting_depth_concat(seq![first], others);
            lemma_max_nesting_depth_one(first);
            assert(s =~= stringify_all_spec(types) + seq![')'] + rest);
        }
    }
}

/// Whatever is parsed from a whole text, the text is the canonical text of
/// the parsed types; none nests deeper than `depth`.
pub proof fn lemma_parse_all_sound(s: Seq<char>, depth: nat)
    ensures
        parse_all_spec(s, depth) matches Ok(types) ==> s == stringify_all_spec(types)
            && max_nesting_depth(types) <= depth,
    decreases s.len(),
{
    if s.len() == 0 {
        assert(s =~= Seq::<char>::empty());
    } else if let Ok(types) = parse_all_spec(s, depth) {
        lemma_parse_sound(s, depth);
        let (first, rest) = parse_spec(s, depth)->Ok_0;
        lemma_parse_all_sound(rest, depth);
        let others = parse_all_spec(rest, depth)->Ok_0;
        assert(types == seq![first] + others);
        lemma_stringify_all_concat(seq![first], others);
        lemma_stringify_all_one(first);
        lemma_max_nesting_depth_concat(seq![first], others);
        lemma_max_nesting_depth_one(first);
    }
}

/// Parsing reads back what `stringify` wrote: from the canonical text of a
/// type that nests no deeper than `depth`, followed by any text, the parser
/// gives that type and that text.
pub proof fn lemma_parse_stringify(t: WireType, rest: Seq<char>, depth: nat)
    requires
        nesting_depth(t) <= depth,
    ensures
        parse_spec(stringify_spec(t) + rest, depth) == Ok::<_, GrammarError>((t, rest)),
    decreases t,
{
    let s = stringify_spec(t) + rest;
    match t {
        WireType::Array(content) => {
            assert(s.skip(1) =~= stringify_spec(*content) + rest);
            lemma_parse_stringify(*content, rest, (depth - 1) as nat);
        },
        WireType::Struct(types) => {
            assert(s.skip(1) =~= stringify_all_spec(types) + seq![')'] + rest);
            lemma_parse_struct_stringify(types, rest, (depth - 1) as nat);
        },
        WireType::DictEntry(key, val) => {
            let after_key = stringify_spec(*val) + (seq!['}'] + rest);
            assert(s.skip(1) =~= stringify_spec(*key) + after_key);
            lemma_parse_stringify(*key, after_key, (depth - 1) as nat);
            lemma_stringify_first(*key);
            lemma_parse_stringify(*val, seq!['}'] + rest, (depth - 1) as nat);
            assert((seq!['}'] + rest).skip(1) =~= rest);
        },
        _ => {
            assert(s.skip(1) =~= rest);
        },
    }
}

/// From the texts of element types that nest no deeper than `depth`, followed
/// by `)` and any text, the parser gives those types and that text.
pub proof fn lemma_parse_struct_stringify(types: Seq<WireType>, rest: Seq<char>, depth: nat)
    requires
        max_nesting_depth(types) <= depth,
    ensures
        parse_struct_spec(stringify_all_spec(types) + seq![')'] + rest, depth) == Ok::<
            _,
            GrammarError,
        >((types, rest)),
    decreases types,
{
    let s = stringify_all_spec(types) + seq![')'] + rest;
    if types.len() == 0 {
        assert(s.skip(1) =~= rest);
        assert(types =~= Seq::<WireType>::empty());
    } else {
        let first = types[0];
        let others = types.drop_first();
        let after_first = stringify_all_spec(others) + seq![')'] + rest;
        assert(types =~= seq![first] + others);
        lemma_stringify_all_concat(seq![first], others);
        lemma_stringify_all_one(first);
        lemma_max_nesting_depth_bounds(types, 0);
        lemma_max_nesting_depth_concat(seq![first], others);
        lemma_max_nesting_depth_one(first);
        lemma_stringify_first(first);
        assert(s =~= stringify_spec(first) + after_first);
        lemma_parse_stringify(first, after_first, depth);
        lemma_parse_struct_stringify(others, rest, depth);
    }
}

/// Round trip: a sequence of types, none of which nests deeper than `depth`,
/// is what parsing its canonical text gives.
pub proof fn lemma_parse_all_stringify(types: Seq<WireType>, depth: nat)
    requires
        max_nesting_depth(types) <= depth,
    ensures
        parse_all_spec(stringify_all_spec(types), depth) == Ok::<_, GrammarError>(types),
    decreases types.len(),
{
    if types.len() == 0 {
        assert(types =~= Seq::<WireType>::empty());
    } else {
        let first = types[0];
        let others = types.drop_first();
        assert(types =~= seq![first] + others);
        lemma_stringify_all_concat(seq![first], others);
        lemma_stringify_all_one(first);
        lemma_max_nesting_depth_bounds(types, 0);
        lemma_max_nesting_depth_concat(seq![first], others);
        lemma_max_nesting_depth_one(first);
        lemma_stringify_first(first);
        lemma_parse_stringify(first, stringify_all_spec(others), depth);
        lemma_parse_all_stringify(others, depth);
    }
}

} // verus!

