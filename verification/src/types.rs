//! Types, type variables and the application of substitutions.

use std::collections::HashMap;
use std::sync::Arc;
use vstd::prelude::*;
use vstd::string::StringExecFns;

verus! {

broadcast use vstd::std_specs::hash::group_hash_axioms;

/// A type: either a concrete shape with its error flag, or a variable that
/// stands for a type not yet determined.
#[derive(Debug, PartialEq, Eq)]
pub enum Type {
    Raw(RawType, bool),
    Variable(usize),
}

/// The shape of a concrete type.
#[derive(Debug, PartialEq, Eq)]
pub enum RawType {
    Error,
    Function(Arc<Type>, Arc<Type>),
    Number,
}

/// `Arc::clone` hands back a second pointer to the same allocation, so the
/// value behind the result is the value behind the argument.
#[verifier::external_body]
fn share(pointer: &Arc<Type>) -> (result: Arc<Type>)
    ensures
        result == *pointer,
{
    Arc::clone(pointer)
}

/// `rand::random` draws a value from the generator of the running thread.
/// Nothing is claimed of the value drawn. The call panics only where the
/// system cannot seed that generator.
#[verifier::external_body]
fn random_identifier() -> usize {
    rand::random()
}

impl Type {
    /// A variable with a freshly drawn identifier.
    pub fn new_variable() -> (result: Type)
        ensures
            result is Variable,
    {
        Type::Variable(random_identifier())
    }

    /// The type with every variable bound in `s` replaced by what `s` binds
    /// it to. What is put in is not itself rewritten.
    pub open spec fn substituted(self, s: Map<usize, Type>) -> Type
        decreases self,
    {
        match self {
            Type::Raw(raw, error) => Type::Raw(raw.substituted(s), error),
            Type::Variable(id) => if s.contains_key(id) {
                s[id]
            } else {
                self
            },
        }
    }

    /// Applies `substitutions` to the type, giving a new type.
    pub fn substitute(&self, substitutions: &HashMap<usize, Type>) -> (result: Type)
        ensures
            result == self.substituted(substitutions@),
        decreases *self,
    {
        match self {
            Type::Raw(raw, error) => Type::Raw(raw.substitute(substitutions), *error),
            Type::Variable(id) => match substitutions.get(id) {
                Some(bound) => bound.clone(),
                None => Type::Variable(*id),
            },
        }
    }
}

impl From<RawType> for Type {
    /// The concrete type of the given shape, with the error flag unset.
    fn from(type_: RawType) -> (result: Type) {
        Type::Raw(type_, false)
    }
}

impl vstd::std_specs::convert::FromSpecImpl<RawType> for Type {
    open spec fn obeys_from_spec() -> bool {
        true
    }

    open spec fn from_spec(type_: RawType) -> Type {
        Type::Raw(type_, false)
    }
}

impl Clone for Type {
    fn clone(&self) -> (result: Type)
        ensures
            result == *self,
    {
        match self {
            Type::Raw(raw, error) => Type::Raw(raw.clone(), *error),
            Type::Variable(id) => Type::Variable(*id),
        }
    }
}

impl RawType {
    /// The shape with `s` applied to the argument and result of a function;
    /// `Number` and `Error` stay as they are.
    pub open spec fn substituted(self, s: Map<usize, Type>) -> RawType
        decreases self,
    {
        match self {
            RawType::Error => RawType::Error,
            RawType::Function(argument, result) => RawType::Function(
                Arc::new((*argument).substituted(s)),
                Arc::new((*result).substituted(s)),
            ),
            RawType::Number => RawType::Number,
        }
    }

    /// Applies `substitutions` to the shape, giving a new shape.
    pub fn substitute(&self, substitutions: &HashMap<usize, Type>) -> (result: RawType)
        ensures
            result == self.substituted(substitutions@),
        decreases *self,
    {
        match self {
            RawType::Error => RawType::Error,
            RawType::Function(argument, result) => RawType::Function(
                Arc::new(argument.substitute(substitutions)),
                Arc::new(result.substitute(substitutions)),
            ),
            RawType::Number => RawType::Number,
        }
    }
}

impl Clone for RawType {
    fn clone(&self) -> (result: RawType)
        ensures
            result == *self,
    {
        match self {
            RawType::Error => RawType::Error,
            RawType::Function(argument, result) => RawType::Function(
                share(argument),
                share(result),
            ),
            RawType::Number => RawType::Number,
        }
    }
}

/// The number that the four leading hexadecimal digits of `id` spell, where
/// `id` is first padded with zeros to four digits.
pub open spec fn leading_digits(id: nat) -> nat
    decreases id,
{
    if id < 0x10000 {
        id
    } else {
        leading_digits(id / 16)
    }
}

/// The lower-case hexadecimal digit of a value below sixteen.
pub open spec fn digit_text(digit: nat) -> Seq<char> {
    if digit == 0 {
        "0"@
    } else if digit == 1 {
        "1"@
    } else if digit == 2 {
        "2"@
    } else if digit == 3 {
        "3"@
    } else if digit == 4 {
        "4"@
    } else if digit == 5 {
        "5"@
    } else if digit == 6 {
        "6"@
    } else if digit == 7 {
        "7"@
    } else if digit == 8 {
        "8"@
    } else if digit == 9 {
        "9"@
    } else if digit == 10 {
        "a"@
    } else if digit == 11 {
        "b"@
    } else if digit == 12 {
        "c"@
    } else if digit == 13 {
        "d"@
    } else if digit == 14 {
        "e"@
    } else {
        "f"@
    }
}

/// How the identifier of a variable is shown: the first four digits of its
/// hexadecimal form, which has at least four digits.
pub open spec fn identifier_text(id: usize) -> Seq<char> {
    let leading = leading_digits(id as nat);
    digit_text(leading / 4096) + digit_text(leading / 256 % 16) + digit_text(leading / 16 % 16)
        + digit_text(leading % 16)
}

fn digit(value: usize) -> (result: &'static str)
    requires
        value < 16,
    ensures
        result@ == digit_text(value as nat),
{
    if value == 0 {
        "0"
    } else if value == 1 {
        "1"
    } else if value == 2 {
        "2"
    } else if value == 3 {
        "3"
    } else if value == 4 {
        "4"
    } else if value == 5 {
        "5"
    } else if value == 6 {
        "6"
    } else if value == 7 {
        "7"
    } else if value == 8 {
        "8"
    } else if value == 9 {
        "9"
    } else if value == 10 {
        "a"
    } else if value == 11 {
        "b"
    } else if value == 12 {
        "c"
    } else if value == 13 {
        "d"
    } else if value == 14 {
        "e"
    } else {
        "f"
    }
}

fn write_identifier(id: usize, text: &mut String)
    ensures
        final(text)@ == old(text)@ + identifier_text(id),
{
    let mut leading: usize = id;
    while leading >= 0x10000
        invariant
            leading_digits(leading as nat) == leading_digits(id as nat),
        decreases leading,
    {
        leading = leading / 16;
    }
    text.append(digit(leading / 4096));
    text.append(digit(leading / 256 % 16));
    text.append(digit(leading / 16 % 16));
    text.append(digit(leading % 16));
    assert(text@ =~= old(text)@ + identifier_text(id));
}

impl Type {
    /// The text that shows the type: a concrete type as its shape, in
    /// brackets and followed by `?` where the error flag is set; a variable
    /// as `<` and `>` around the first four hexadecimal digits of its
    /// identifier.
    pub open spec fn rendering(self) -> Seq<char>
        decreases self,
    {
        match self {
            Type::Raw(raw, error) => if error {
                "("@ + raw.rendering() + ")?"@
            } else {
                raw.rendering()
            },
            Type::Variable(id) => "<"@ + identifier_text(id) + ">"@,
        }
    }

    fn write(&self, text: &mut String)
        ensures
            final(text)@ == old(text)@ + self.rendering(),
        decreases *self,
    {
        match self {
            Type::Raw(raw, error) => {
                if *error {
                    text.append("(");
                    raw.write(text);
                    text.append(")?");
                } else {
                    raw.write(text);
                }
            },
            Type::Variable(id) => {
                text.append("<");
                write_identifier(*id, text);
                text.append(">");
            },
        }
        assert(text@ =~= old(text)@ + self.rendering());
    }

    /// Shows the type as text, for a reader.
    pub fn to_string(&self) -> (text: String)
        ensures
            text@ == self.rendering(),
    {
        let mut text = String::new();
        self.write(&mut text);
        assert(text@ =~= self.rendering());
        text
    }
}

impl RawType {
    /// The text that shows the shape: `Error`, `Number`, or the argument
    /// and the result of a function with ` -> ` between them.
    pub open spec fn rendering(self) -> Seq<char>
        decreases self,
    {
        match self {
            RawType::Error => "Error"@,
            RawType::Function(argument, result) => (*argument).rendering() + " -> "@ + (
            *result).rendering(),
            RawType::Number => "Number"@,
        }
    }

    fn write(&self, text: &mut String)
        ensures
            final(text)@ == old(text)@ + self.rendering(),
        decreases *self,
    {
        match self {
            RawType::Error => {
                text.append("Error");
            },
            RawType::Function(argument, result) => {
                argument.write(text);
                text.append(" -> ");
                result.write(text);
            },
            RawType::Number => {
                text.append("Number");
            },
        }
        assert(text@ =~= old(text)@ + self.rendering());
    }

    /// Shows the shape as text, for a reader.
    pub fn to_string(&self) -> (text: String)
        ensures
            text@ == self.rendering(),
    {
        let mut text = String::new();
        self.write(&mut text);
        assert(text@ =~= self.rendering());
        text
    }
}

impl Type {
    /// Whether the variable `id` occurs in the type.
    pub open spec fn mentions(self, id: usize) -> bool
        decreases self,
    {
        match self {
            Type::Raw(RawType::Function(argument, result), _) => (*argument).mentions(id) || (
            *result).mentions(id),
            Type::Raw(_, _) => false,
            Type::Variable(variable) => variable == id,
        }
    }

    /// Whether the type is a function type.
    pub open spec fn is_function(self) -> bool {
        self matches Type::Raw(RawType::Function(_, _), _)
    }

    /// The argument type of a function type.
    pub open spec fn argument(self) -> Type {
        match self {
            Type::Raw(RawType::Function(argument, _), _) => *argument,
            _ => self,
        }
    }

    /// The result type of a function type.
    pub open spec fn result(self) -> Type {
        match self {
            Type::Raw(RawType::Function(_, result), _) => *result,
            _ => self,
        }
    }

    /// Whether no variable occurs in the type.
    pub open spec fn is_ground(self) -> bool {
        forall|id: usize| !self.mentions(id)
    }
}

/// Whether a substitution is fully resolved: no type that it binds a
/// variable to holds a variable that it binds.
pub open spec fn is_resolved(s: Map<usize, Type>) -> bool {
    forall|bound: usize, id: usize|
        s.contains_key(bound) && s.contains_key(id) ==> !(#[trigger] s[bound].mentions(id))
}

/// A substitution leaves a type as it is where it binds none of the
/// variables that occur in the type.
pub proof fn lemma_substitute_unmentioned(type_: Type, s: Map<usize, Type>)
    requires
        forall|id: usize| s.contains_key(id) ==> !type_.mentions(id),
    ensures
        type_.substituted(s) == type_,
    decreases type_,
{
    if type_.is_function() {
        let argument = type_.argument();
        let result = type_.result();
        assert forall|id: usize| s.contains_key(id) implies !argument.mentions(id) by {
            assert(!type_.mentions(id));
        }
        assert forall|id: usize| s.contains_key(id) implies !result.mentions(id) by {
            assert(!type_.mentions(id));
        }
        lemma_substitute_unmentioned(argument, s);
        lemma_substitute_unmentioned(result, s);
    } else if type_ is Variable {
        assert(type_.mentions(type_->Variable_0));
    }
}

/// A substitution leaves a type without variables as it is.
pub proof fn lemma_substitute_ground(type_: Type, s: Map<usize, Type>)
    requires
        type_.is_ground(),
    ensures
        type_.substituted(s) == type_,
{
    lemma_substitute_unmentioned(type_, s);
}

/// Applying a fully resolved substitution twice gives what applying it once
/// gives.
pub proof fn lemma_substitute_idempotent(type_: Type, s: Map<usize, Type>)
    requires
        is_resolved(s),
    ensures
        type_.substituted(s).substituted(s) == type_.substituted(s),
    decreases type_,
{
    if type_.is_function() {
        lemma_substitute_idempotent(type_.argument(), s);
        lemma_substitute_idempotent(type_.result(), s);
    } else if type_ is Variable {
        let variable = type_->Variable_0;
        if s.contains_key(variable) {
            assert forall|id: usize| s.contains_key(id) implies !s[variable].mentions(id) by {}
            lemma_substitute_unmentioned(s[variable], s);
        }
    }
}

} // verus!
