//! What an object says of itself when it is introspected: its interfaces with
//! their methods, signals and properties, and its child nodes.

use crate::text::{first_named, lemma_first_named, lemma_first_named_at, same_text};
use vstd::prelude::*;

verus! {

/// An object in the tree of objects that a connection exports.
#[derive(Debug, PartialEq, Eq, Default)]
pub struct Node {
    pub name: Option<String>,
    pub interfaces: Vec<Interface>,
    pub children: Vec<Node>,
}

/// A named set of methods, signals and properties.
#[derive(Debug, Clone, PartialEq, Eq)]
pub struct Interface {
    pub name: String,
    pub methods: Vec<Method>,
    pub signals: Vec<Signal>,
    pub properties: Vec<Property>,
    pub annotations: Vec<Annotation>,
}

/// A method of an interface.
#[derive(Debug, Clone, PartialEq, Eq)]
pub struct Method {
    pub name: String,
    pub args: Vec<MethodArg>,
    pub annotations: Vec<Annotation>,
}

/// One argument of a method: what it takes, or what it returns.
#[derive(Debug, Clone, PartialEq, Eq)]
pub struct MethodArg {
    pub name: Option<String>,
    /// The signature text of the argument's type.
    pub signature: String,
    pub direction: Direction,
}

/// Whether a method takes an argument or returns it.
#[derive(Debug, Clone, Copy, PartialEq, Eq, Structural, Default)]
pub enum Direction {
    #[default]
    In,
    Out,
}

/// A signal of an interface.
#[derive(Debug, Clone, PartialEq, Eq)]
pub struct Signal {
    pub name: String,
    pub args: Vec<SignalArg>,
    pub annotations: Vec<Annotation>,
}

/// One argument of a signal.
#[derive(Debug, Clone, PartialEq, Eq)]
pub struct SignalArg {
    pub name: Option<String>,
    /// The signature text of the argument's type.
    pub signature: String,
}

/// A property of an interface.
#[derive(Debug, Clone, PartialEq, Eq)]
pub struct Property {
    pub name: String,
    /// The signature text of the property's type.
    pub signature: String,
    pub access: Access,
    pub annotations: Vec<Annotation>,
}

/// What may be done with a property.
#[derive(Debug, Clone, PartialEq, Eq)]
pub enum Access {
    Read,
    Write,
    ReadWrite,
}

/// A named remark on an interface, a method, a signal or a property.
#[derive(Debug, Clone, PartialEq, Eq)]
pub struct Annotation {
    pub name: String,
    pub value: String,
}

impl Clone for Node {
    fn clone(&self) -> (copy: Self)
        decreases self,
    {
        let mut children: Vec<Node> = Vec::new();
        let mut i: usize = 0;
        while i < self.children.len()
            invariant
                i <= self.children.len(),
            decreases self.children.len() - i,
        {
            proof {
                assert(decreases_to!(*self => self.children[i as int]));
            }
            children.push(self.children[i].clone());
            i += 1;
        }
        Node { name: self.name.clone(), interfaces: self.interfaces.clone(), children }
    }
}

/// The signature text of those of `args` that go in the given direction.
pub open spec fn signature_of(args: Seq<MethodArg>, direction: Direction) -> Seq<char>
    decreases args.len(),
{
    if args.len() == 0 {
        Seq::empty()
    } else if args.last().direction == direction {
        signature_of(args.drop_last(), direction) + args.last().signature@
    } else {
        signature_of(args.drop_last(), direction)
    }
}

/// The names of interfaces, in order.
pub open spec fn interface_names(items: Seq<Interface>) -> Seq<Seq<char>> {
    Seq::new(items.len(), |i: int| items[i].name@)
}

/// The names of methods, in order.
pub open spec fn method_names(items: Seq<Method>) -> Seq<Seq<char>> {
    Seq::new(items.len(), |i: int| items[i].name@)
}

/// The names of signals, in order.
pub open spec fn signal_names(items: Seq<Signal>) -> Seq<Seq<char>> {
    Seq::new(items.len(), |i: int| items[i].name@)
}

/// The names of properties, in order.
pub open spec fn property_names(items: Seq<Property>) -> Seq<Seq<char>> {
    Seq::new(items.len(), |i: int| items[i].name@)
}

impl Node {
    /// A node of that name, without interfaces or children.
    pub fn with_name(name: &str) -> (node: Node)
        ensures
            node.name matches Some(n) && n@ == name@,
            node.interfaces@.len() == 0,
            node.children@.len() == 0,
    {
        Node { name: Some(String::from_str(name)), interfaces: Vec::new(), children: Vec::new() }
    }

    /// The first interface of that name, if there is one.
    pub open spec fn interface_named(&self, name: Seq<char>) -> Option<&Interface> {
        match first_named(interface_names(self.interfaces@), name) {
            Some(k) => Some(&self.interfaces[k]),
            None => None,
        }
    }

    /// The signature text of what the method of that name on the interface of
    /// that name takes, if there is such a method.
    pub open spec fn method_args_signature(&self, interface: Seq<char>, method: Seq<char>) -> Option<
        Seq<char>,
    > {
        match self.interface_named(interface) {
            Some(i) => match i.method_named(method) {
                Some(m) => Some(signature_of(m.args@, Direction::In)),
                None => None,
            },
            None => None,
        }
    }

    /// The signature text of the property of that name on the interface of
    /// that name, if there is such a property.
    pub open spec fn property_signature(&self, interface: Seq<char>, property: Seq<char>) -> Option<
        Seq<char>,
    > {
        match self.interface_named(interface) {
            Some(i) => match i.property_named(property) {
                Some(p) => Some(p.signature@),
                None => None,
            },
            None => None,
        }
    }

    /// The first interface of that name, if there is one.
    pub fn get_interface(&self, name: &str) -> (found: Option<&Interface>)
        ensures
            found == self.interface_named(name@),
    {
        let ghost names = interface_names(self.interfaces@);
        let mut i: usize = 0;
        while i < self.interfaces.len()
            invariant
                i <= self.interfaces.len(),
                names == interface_names(self.interfaces@),
                forall|j: int| 0 <= j < i ==> names[j] != name@,
            decreases self.interfaces.len() - i,
        {
            if same_text(self.interfaces[i].name.as_str(), name) {
                proof {
                    lemma_first_named_at(names, name@, i as int);
                }
                return Some(&self.interfaces[i]);
            }
            i += 1;
        }
        proof {
            lemma_first_named(names, name@);
        }
        None
    }

    /// Finds a method on an interface of this node and gives the signature of
    /// the arguments that the method takes.
    pub fn get_method_args_signature(&self, interface: &str, method: &str) -> (signature: Option<
        String,
    >)
        ensures
            match self.method_args_signature(interface@, method@) {
                Some(text) => signature matches Some(s) && s@ == text,
                None => signature is None,
            },
    {
        match self.get_interface(interface) {
            Some(i) => match i.get_method(method) {
                Some(m) => Some(m.in_signature()),
                None => None,
            },
            None => None,
        }
    }

    /// Finds the signature of a property on an interface of this node.
    pub fn get_property_signature(&self, interface: &str, property: &str) -> (signature: Option<
        &str,
    >)
        ensures
            match self.property_signature(interface@, property@) {
                Some(text) => signature matches Some(s) && s@ == text,
                None => signature is None,
            },
    {
        match self.get_interface(interface) {
            Some(i) => match i.get_property(property) {
                Some(p) => Some(p.signature.as_str()),
                None => None,
            },
            None => None,
        }
    }
}

impl Interface {
    /// The first method of that name, if there is one.
    pub open spec fn method_named(&self, name: Seq<char>) -> Option<&Method> {
        match first_named(method_names(self.methods@), name) {
            Some(k) => Some(&self.methods[k]),
            None => None,
        }
    }

    /// The first signal of that name, if there is one.
    pub open spec fn signal_named(&self, name: Seq<char>) -> Option<&Signal> {
        match first_named(signal_names(self.signals@), name) {
            Some(k) => Some(&self.signals[k]),
            None => None,
        }
    }

    /// The first property of that name, if there is one.
    pub open spec fn property_named(&self, name: Seq<char>) -> Option<&Property> {
        match first_named(property_names(self.properties@), name) {
            Some(k) => Some(&self.properties[k]),
            None => None,
        }
    }

    /// The first method of that name, if there is one.
    pub fn get_method(&self, name: &str) -> (found: Option<&Method>)
        ensures
            found == self.method_named(name@),
    {
        let ghost names = method_names(self.methods@);
        let mut i: usize = 0;
        while i < self.methods.len()
            invariant
                i <= self.methods.len(),
                names == method_names(self.methods@),
                forall|j: int| 0 <= j < i ==> names[j] != name@,
            decreases self.methods.len() - i,
        {
            if same_text(self.methods[i].name.as_str(), name) {
                proof {
                    lemma_first_named_at(names, name@, i as int);
                }
                return Some(&self.methods[i]);
            }
            i += 1;
        }
        proof {
            lemma_first_named(names, name@);
        }
        None
    }

    /// The first signal of that name, if there is one.
    pub fn get_signal(&self, name: &str) -> (found: Option<&Signal>)
        ensures
            found == self.signal_named(name@),
    {
        let ghost names = signal_names(self.signals@);
        let mut i: usize = 0;
        while i < self.signals.len()
            invariant
                i <= self.signals.len(),
                names == signal_names(self.signals@),
                forall|j: int| 0 <= j < i ==> names[j] != name@,
            decreases self.signals.len() - i,
        {
            if same_text(self.signals[i].name.as_str(), name) {
                proof {
                    lemma_first_named_at(names, name@, i as int);
                }
                return Some(&self.signals[i]);
            }
            i += 1;
        }
        proof {
            lemma_first_named(names, name@);
        }
        None
    }

    /// The first property of that name, if there is one.
    pub fn get_property(&self, name: &str) -> (found: Option<&Property>)
        ensures
            found == self.property_named(name@),
    {
        let ghost names = property_names(self.properties@);
        let mut i: usize = 0;
        while i < self.properties.len()
            invariant
                i <= self.properties.len(),
                names == property_names(self.properties@),
                forall|j: int| 0 <= j < i ==> names[j] != name@,
            decreases self.properties.len() - i,
        {
            if same_text(self.properties[i].name.as_str(), name) {
                proof {
                    lemma_first_named_at(names, name@, i as int);
                }
                return Some(&self.properties[i]);
            }
            i += 1;
        }
        proof {
            lemma_first_named(names, name@);
        }
        None
    }
}

impl Method {
    /// The signature text of those arguments that go in the given direction.
    fn signature_in_direction(&self, direction: Direction) -> (signature: String)
        ensures
            signature@ == signature_of(self.args@, direction),
    {
        let mut signature = String::new();
        let mut i: usize = 0;
        assert(self.args@.take(0) =~= Seq::<MethodArg>::empty());
        while i < self.args.len()
            invariant
                i <= self.args.len(),
                signature@ == signature_of(self.args@.take(i as int), direction),
            decreases self.args.len() - i,
        {
            proof {
                assert(self.args@.take(i + 1).drop_last() =~= self.args@.take(i as int));
                assert(self.args@.take(i + 1).last() == self.args[i as int]);
            }
            if self.args[i].direction == direction {
                signature.append(self.args[i].signature.as_str());
            }
            i += 1;
        }
        assert(self.args@.take(i as int) =~= self.args@);
        signature
    }

    /// The signature of the arguments that the method takes.
    pub fn in_signature(&self) -> (signature: String)
        ensures
            signature@ == signature_of(self.args@, Direction::In),
    {
        self.signature_in_direction(Direction::In)
    }

    /// The signature of what the method returns.
    pub fn out_signature(&self) -> (signature: String)
        ensures
            signature@ == signature_of(self.args@, Direction::Out),
    {
        self.signature_in_direction(Direction::Out)
    }
}

impl MethodArg {
    /// A named argument of the given type that goes in the given direction.
    pub fn new(name: &str, signature: &str, direction: Direction) -> (arg: MethodArg)
        ensures
            arg.name matches Some(n) && n@ == name@,
            arg.signature@ == signature@,
            arg.direction == direction,
    {
        MethodArg {
            name: Some(String::from_str(name)),
            signature: String::from_str(signature),
            direction,
        }
    }
}

impl Annotation {
    /// An annotation of that name and value.
    pub fn new(name: &str, value: &str) -> (annotation: Annotation)
        ensures
            annotation.name@ == name@,
            annotation.value@ == value@,
    {
        Annotation { name: String::from_str(name), value: String::from_str(value) }
    }
}

} // verus!
