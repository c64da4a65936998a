use std::hash::{Hash, Hasher};
use vstd::prelude::*;
use vstd::string::StringExecFns;
use crate::ast::{
    idents_model, idents_text, join_identifiers, stmts_text, BlockModel, BlockStatement, IdentModel,
    Identifier, Node,
};
use crate::text::{i64_to_string, int_text, join};

verus! {

/// The kinds of runtime value.
#[derive(Clone, Copy, Debug, PartialEq, Eq, Hash, Structural)]
pub enum ObjectType {
    INTEGER,
    BOOLEAN,
    NULL,
    RETURN,
    ERROR,
    FUNCTION,
    STRING,
    BUILTINFUNC,
    ARRAY,
    HASH,
}

/// The upper-case name of a kind, as it appears in error messages.
pub open spec fn kind_text(kind: ObjectType) -> Seq<char> {
    match kind {
        ObjectType::INTEGER => "INTEGER"@,
        ObjectType::BOOLEAN => "BOOLEAN"@,
        ObjectType::NULL => "NULL"@,
        ObjectType::RETURN => "RETURN"@,
        ObjectType::ERROR => "ERROR"@,
        ObjectType::FUNCTION => "FUNCTION"@,
        ObjectType::STRING => "STRING"@,
        ObjectType::BUILTINFUNC => "BUILTINFUNC"@,
        ObjectType::ARRAY => "ARRAY"@,
        ObjectType::HASH => "HASH"@,
    }
}

impl ObjectType {
    /// The name of the kind.
    pub fn name(&self) -> (r: &'static str)
        ensures
            r@ == kind_text(*self),
    {
        match self {
            ObjectType::INTEGER => "INTEGER",
            ObjectType::BOOLEAN => "BOOLEAN",
            ObjectType::NULL => "NULL",
            ObjectType::RETURN => "RETURN",
            ObjectType::ERROR => "ERROR",
            ObjectType::FUNCTION => "FUNCTION",
            ObjectType::STRING => "STRING",
            ObjectType::BUILTINFUNC => "BUILTINFUNC",
            ObjectType::ARRAY => "ARRAY",
            ObjectType::HASH => "HASH",
        }
    }
}

/// The functions that the language provides by itself.
#[derive(Clone, Copy, Debug, PartialEq, Eq, Hash, Structural)]
pub enum Builtin {
    Len,
    First,
    Last,
    Rest,
    Push,
    Puts,
}

/// The key under which a hash stores a pair: the kind of the key object and a 64-bit digest.
#[derive(Clone, Copy, Debug, PartialEq, Eq, Hash, Structural)]
pub struct HashKey {
    pub kind: ObjectType,
    pub value: u64,
}

/// A runtime value as a mathematical value.
pub enum ObjectModel {
    Integer(i64),
    Boolean(bool),
    Null,
    Return(Box<ObjectModel>),
    Error(Seq<char>),
    Function { params: Seq<IdentModel>, body: BlockModel, env: int },
    Str(Seq<char>),
    Builtin(Builtin),
    Array(Seq<ObjectModel>),
    Hash(Seq<(ObjectModel, ObjectModel)>),
}

/// A runtime value.
#[derive(Debug)]
pub enum Object {
    INTEGER(Integer),
    BOOLEAN(Boolean),
    NULL(Null),
    RETURN(Return),
    ERROR(Error),
    FN(Function),
    STRING(StringLiteral),
    BUILTINFUNC(BuiltInFunc),
    ARRAY(Array),
    HashLitearl(HashObject),
}

/// An integer.
#[derive(Debug)]
pub struct Integer {
    pub value: i64,
}

/// A truth value.
#[derive(Debug)]
pub struct Boolean {
    pub value: bool,
}

/// A string.
#[derive(Debug)]
pub struct StringLiteral {
    pub value: String,
}

/// An array: its elements in order.
#[derive(Debug)]
pub struct Array {
    pub elements: Vec<Object>,
}

/// The value that stands for no value.
#[derive(Debug)]
pub struct Null {}

/// The value of a `return` statement on its way out of the enclosing function.
#[derive(Debug)]
pub struct Return {
    pub value: Box<Object>,
}

/// An error: its message.
#[derive(Debug)]
pub struct Error {
    pub msg: String,
}

/// A closure: parameters, body, and the environment in which the function literal was
/// evaluated, by its number.
#[derive(Debug)]
pub struct Function {
    pub params: Vec<Identifier>,
    pub body: BlockStatement,
    pub env: usize,
}

/// A function that the language provides by itself.
#[derive(Debug)]
pub struct BuiltInFunc {
    pub func: Builtin,
}

/// A hash: its pairs in the order in which their keys first came.
#[derive(Debug)]
pub struct HashObject {
    pub pairs: Vec<HashPair>,
}

/// A pair of a hash: the key as it was given, and the value.
#[derive(Debug)]
pub struct HashPair {
    pub key: Object,
    pub value: Object,
}

/// The model of a value.
#[verifier::opaque]
pub open spec fn object_model(o: Object) -> ObjectModel
    decreases o,
{
    match o {
        Object::INTEGER(x) => ObjectModel::Integer(x.value),
        Object::BOOLEAN(x) => ObjectModel::Boolean(x.value),
        Object::NULL(_) => ObjectModel::Null,
        Object::RETURN(x) => ObjectModel::Return(Box::new(object_model(*x.value))),
        Object::ERROR(x) => ObjectModel::Error(x.msg@),
        Object::FN(x) => ObjectModel::Function {
            params: idents_model(x.params@),
            body: x.body@,
            env: x.env as int,
        },
        Object::STRING(x) => ObjectModel::Str(x.value@),
        Object::BUILTINFUNC(x) => ObjectModel::Builtin(x.func),
        Object::ARRAY(x) => ObjectModel::Array(objects_model(x.elements@)),
        Object::HashLitearl(x) => ObjectModel::Hash(hash_pairs_model(x.pairs@)),
    }
}

/// The models of a list of values.
#[verifier::opaque]
pub open spec fn objects_model(s: Seq<Object>) -> Seq<ObjectModel>
    decreases s,
{
    Seq::new(
        s.len(),
        |i: int|
            if 0 <= i < s.len() {
                object_model(s[i])
            } else {
                arbitrary()
            },
    )
}

/// The models of the pairs of a hash.
#[verifier::opaque]
pub open spec fn hash_pairs_model(s: Seq<HashPair>) -> Seq<(ObjectModel, ObjectModel)>
    decreases s,
{
    Seq::new(
        s.len(),
        |i: int|
            if 0 <= i < s.len() {
                (object_model(s[i].key), object_model(s[i].value))
            } else {
                arbitrary()
            },
    )
}

impl View for Object {
    type V = ObjectModel;

    open spec fn view(&self) -> ObjectModel {
        object_model(*self)
    }
}

impl View for Integer {
    type V = ObjectModel;

    open spec fn view(&self) -> ObjectModel {
        ObjectModel::Integer(self.value)
    }
}

impl View for Boolean {
    type V = ObjectModel;

    open spec fn view(&self) -> ObjectModel {
        ObjectModel::Boolean(self.value)
    }
}

impl View for Null {
    type V = ObjectModel;

    open spec fn view(&self) -> ObjectModel {
        ObjectModel::Null
    }
}

impl View for Return {
    type V = ObjectModel;

    open spec fn view(&self) -> ObjectModel {
        ObjectModel::Return(Box::new(object_model(*self.value)))
    }
}

impl View for Error {
    type V = ObjectModel;

    open spec fn view(&self) -> ObjectModel {
        ObjectModel::Error(self.msg@)
    }
}

impl View for Function {
    type V = ObjectModel;

    open spec fn view(&self) -> ObjectModel {
        ObjectModel::Function {
            params: idents_model(self.params@),
            body: self.body@,
            env: self.env as int,
        }
    }
}

impl View for StringLiteral {
    type V = ObjectModel;

    open spec fn view(&self) -> ObjectModel {
        ObjectModel::Str(self.value@)
    }
}

impl View for BuiltInFunc {
    type V = ObjectModel;

    open spec fn view(&self) -> ObjectModel {
        ObjectModel::Builtin(self.func)
    }
}

impl View for Array {
    type V = ObjectModel;

    open spec fn view(&self) -> ObjectModel {
        ObjectModel::Array(objects_model(self.elements@))
    }
}

impl View for HashObject {
    type V = ObjectModel;

    open spec fn view(&self) -> ObjectModel {
        ObjectModel::Hash(hash_pairs_model(self.pairs@))
    }
}

impl View for HashPair {
    type V = (ObjectModel, ObjectModel);

    open spec fn view(&self) -> (ObjectModel, ObjectModel) {
        (object_model(self.key), object_model(self.value))
    }
}

/// The model of a value, one level deep: that of the variant it is.
#[verifier::spinoff_prover]
pub proof fn lemma_object_model(o: Object)
    ensures
        object_model(o) == (match o {
            Object::INTEGER(x) => x@,
            Object::BOOLEAN(x) => x@,
            Object::NULL(x) => x@,
            Object::RETURN(x) => x@,
            Object::ERROR(x) => x@,
            Object::FN(x) => x@,
            Object::STRING(x) => x@,
            Object::BUILTINFUNC(x) => x@,
            Object::ARRAY(x) => x@,
            Object::HashLitearl(x) => x@,
        }),
{
    reveal_with_fuel(object_model, 1);
    reveal_with_fuel(objects_model, 1);
    reveal_with_fuel(hash_pairs_model, 1);
}

/// The model of a list of values holds the model of each, in order.
#[verifier::spinoff_prover]
pub proof fn lemma_objects_model(s: Seq<Object>)
    ensures
        objects_model(s).len() == s.len(),
        forall|i: int| 0 <= i < s.len() ==> #[trigger] objects_model(s)[i] == object_model(s[i]),
{
    reveal_with_fuel(object_model, 1);
    reveal_with_fuel(objects_model, 1);
}

/// The model of the pairs of a hash holds the models of each pair, in order.
#[verifier::spinoff_prover]
pub proof fn lemma_hash_pairs_model(s: Seq<HashPair>)
    ensures
        hash_pairs_model(s).len() == s.len(),
        forall|i: int| 0 <= i < s.len() ==> #[trigger] hash_pairs_model(s)[i] == s[i]@,
{
    reveal_with_fuel(object_model, 1);
    reveal_with_fuel(hash_pairs_model, 1);
}

/// The kind of a value.
pub open spec fn kind_of(o: ObjectModel) -> ObjectType {
    match o {
        ObjectModel::Integer(_) => ObjectType::INTEGER,
        ObjectModel::Boolean(_) => ObjectType::BOOLEAN,
        ObjectModel::Null => ObjectType::NULL,
        ObjectModel::Return(_) => ObjectType::RETURN,
        ObjectModel::Error(_) => ObjectType::ERROR,
        ObjectModel::Function { .. } => ObjectType::FUNCTION,
        ObjectModel::Str(_) => ObjectType::STRING,
        ObjectModel::Builtin(_) => ObjectType::BUILTINFUNC,
        ObjectModel::Array(_) => ObjectType::ARRAY,
        ObjectModel::Hash(_) => ObjectType::HASH,
    }
}

/// How a value shows: integers in decimal, strings as their content, arrays and hashes
/// with their members, a function with its parameters and body, an error after `Error: `.
pub open spec fn object_text(o: ObjectModel) -> Seq<char>
    decreases o,
{
    match o {
        ObjectModel::Integer(v) => int_text(v as int),
        ObjectModel::Boolean(b) => if b {
            "true"@
        } else {
            "false"@
        },
        ObjectModel::Null => "null"@,
        ObjectModel::Return(inner) => object_text(*inner),
        ObjectModel::Error(msg) => "Error: "@ + msg,
        ObjectModel::Function { params, body, .. } => "fn("@ + join(idents_text(params), ", "@)
            + "){\n"@ + stmts_text(body.statements) + "\n}"@,
        ObjectModel::Str(s) => s,
        ObjectModel::Builtin(_) => "builtin function"@,
        ObjectModel::Array(items) => "["@ + join(objects_text(items), ", "@) + "]"@,
        ObjectModel::Hash(pairs) => "{"@ + join(hash_pairs_text(pairs), ", "@) + "}"@,
    }
}

/// How each of a list of values shows.
pub open spec fn objects_text(s: Seq<ObjectModel>) -> Seq<Seq<char>>
    decreases s,
{
    Seq::new(
        s.len(),
        |i: int|
            if 0 <= i < s.len() {
                object_text(s[i])
            } else {
                arbitrary()
            },
    )
}

/// How each pair of a hash shows: key, a colon and a space, value.
pub open spec fn hash_pairs_text(s: Seq<(ObjectModel, ObjectModel)>) -> Seq<Seq<char>>
    decreases s,
{
    Seq::new(
        s.len(),
        |i: int|
            if 0 <= i < s.len() {
                object_text(s[i].0) + ": "@ + object_text(s[i].1)
            } else {
                arbitrary()
            },
    )
}

/// The 64-bit digest that a fresh `std::hash::DefaultHasher` gives to a string. It is the
/// same in every run of one build of the library; the algorithm is the standard library's
/// own, and no more is known of it here than that equal strings have equal digests.
pub uninterp spec fn string_digest(s: Seq<char>) -> u64;

/// The digest of an integer key: the integer itself, read as an unsigned number.
pub open spec fn integer_digest(v: i64) -> u64 {
    if v >= 0 {
        v as u64
    } else {
        (v + 0x1_0000_0000_0000_0000) as u64
    }
}

/// The hash key of a value: integers, booleans and strings have one, nothing else has.
pub open spec fn hash_key_of(o: ObjectModel) -> Option<HashKey> {
    match o {
        ObjectModel::Integer(v) => Some(
            HashKey { kind: ObjectType::INTEGER, value: integer_digest(v) },
        ),
        ObjectModel::Boolean(b) => Some(
            HashKey {
                kind: ObjectType::BOOLEAN,
                value: if b {
                    1
                } else {
                    0
                },
            },
        ),
        ObjectModel::Str(s) => Some(HashKey { kind: ObjectType::STRING, value: string_digest(s) }),
        _ => None,
    }
}

/// Calls `std::hash::DefaultHasher::new`, feeds it the string through `Hash::hash`, as the
/// `Hash` of `String` does, and takes `Hasher::finish`. Not proved: that the result is the
/// digest that the contracts call `string_digest`, that is, that it depends on the
/// characters of the string alone.
#[verifier::external_body]
fn digest_of(s: &str) -> (r: u64)
    ensures
        r == string_digest(s@),
{
    let mut hasher = std::hash::DefaultHasher::new();
    s.hash(&mut hasher);
    hasher.finish()
}

/// What every runtime value offers: its kind and how it shows.
pub trait ObjectTrait {
    spec fn spec_kind(&self) -> ObjectType;

    spec fn spec_inspect(&self) -> Seq<char>;

    fn kind(&self) -> (r: ObjectType)
        ensures
            r == self.spec_kind(),
    ;

    fn inspect(&self) -> (r: String)
        ensures
            r@ == self.spec_inspect(),
    ;
}

/// A value that can be the key of a hash pair.
pub trait Hashable {
    spec fn spec_hash_key(&self) -> HashKey;

    fn hash_key(&self) -> (r: HashKey)
        ensures
            r == self.spec_hash_key(),
    ;
}

impl ObjectTrait for Object {
    open spec fn spec_kind(&self) -> ObjectType {
        kind_of(self@)
    }

    open spec fn spec_inspect(&self) -> Seq<char> {
        object_text(self@)
    }

    fn kind(&self) -> (r: ObjectType) {
        proof {
            lemma_object_model(*self);
        }
        match self {
            Object::INTEGER(o) => o.kind(),
            Object::BOOLEAN(o) => o.kind(),
            Object::NULL(o) => o.kind(),
            Object::RETURN(o) => o.kind(),
            Object::ERROR(o) => o.kind(),
            Object::FN(o) => o.kind(),
            Object::STRING(o) => o.kind(),
            Object::BUILTINFUNC(o) => o.kind(),
            Object::ARRAY(o) => o.kind(),
            Object::HashLitearl(o) => o.kind(),
        }
    }

    fn inspect(&self) -> (r: String)
        decreases self,
    {
        proof {
            lemma_object_model(*self);
        }
        match self {
            Object::INTEGER(o) => o.inspect(),
            Object::BOOLEAN(o) => o.inspect(),
            Object::NULL(o) => o.inspect(),
            Object::RETURN(o) => o.inspect(),
            Object::ERROR(o) => o.inspect(),
            Object::FN(o) => o.inspect(),
            Object::STRING(o) => o.inspect(),
            Object::BUILTINFUNC(o) => o.inspect(),
            Object::ARRAY(o) => o.inspect(),
            Object::HashLitearl(o) => o.inspect(),
        }
    }
}

impl Object {
    /// The hash key of the value, if it is of a kind that has one.
    pub fn hash_key(&self) -> (r: Option<HashKey>)
        ensures
            r == hash_key_of(self@),
    {
        proof {
            lemma_object_model(*self);
        }
        match self {
            Object::INTEGER(o) => Some(o.hash_key()),
            Object::BOOLEAN(o) => Some(o.hash_key()),
            Object::STRING(o) => Some(o.hash_key()),
            _ => None,
        }
    }
}

impl ObjectTrait for Integer {
    open spec fn spec_kind(&self) -> ObjectType {
        ObjectType::INTEGER
    }

    open spec fn spec_inspect(&self) -> Seq<char> {
        object_text(self@)
    }

    fn kind(&self) -> (r: ObjectType) {
        ObjectType::INTEGER
    }

    fn inspect(&self) -> (r: String) {
        i64_to_string(self.value)
    }
}

impl Hashable for Integer {
    open spec fn spec_hash_key(&self) -> HashKey {
        HashKey { kind: ObjectType::INTEGER, value: integer_digest(self.value) }
    }

    fn hash_key(&self) -> (r: HashKey) {
        let value: u64 = if self.value >= 0 {
            self.value as u64
        } else {
            ((self.value - i64::MIN) as u64) + 0x8000_0000_0000_0000u64
        };
        HashKey { kind: ObjectType::INTEGER, value }
    }
}

impl ObjectTrait for Boolean {
    open spec fn spec_kind(&self) -> ObjectType {
        ObjectType::BOOLEAN
    }

    open spec fn spec_inspect(&self) -> Seq<char> {
        object_text(self@)
    }

    fn kind(&self) -> (r: ObjectType) {
        ObjectType::BOOLEAN
    }

    fn inspect(&self) -> (r: String) {
        if self.value {
            "true".to_owned()
        } else {
            "false".to_owned()
        }
    }
}

impl Hashable for Boolean {
    open spec fn spec_hash_key(&self) -> HashKey {
        HashKey {
            kind: ObjectType::BOOLEAN,
            value: if self.value {
                1
            } else {
                0
            },
        }
    }

    fn hash_key(&self) -> (r: HashKey) {
        HashKey {
            kind: ObjectType::BOOLEAN,
            value: if self.value {
                1
            } else {
                0
            },
        }
    }
}

impl ObjectTrait for StringLiteral {
    open spec fn spec_kind(&self) -> ObjectType {
        ObjectType::STRING
    }

    open spec fn spec_inspect(&self) -> Seq<char> {
        object_text(self@)
    }

    fn kind(&self) -> (r: ObjectType) {
        ObjectType::STRING
    }

    fn inspect(&self) -> (r: String) {
        self.value.clone()
    }
}

impl Hashable for StringLiteral {
    open spec fn spec_hash_key(&self) -> HashKey {
        HashKey { kind: ObjectType::STRING, value: string_digest(self.value@) }
    }

    fn hash_key(&self) -> (r: HashKey) {
        HashKey { kind: ObjectType::STRING, value: digest_of(self.value.as_str()) }
    }
}

/// Shows values, separated by a comma and a space.
pub fn join_objects(items: &Vec<Object>) -> (r: String)
    ensures
        r@ == join(objects_text(objects_model(items@)), ", "@),
    decreases items,
{
    let mut out = String::new();
    let ghost parts = objects_text(objects_model(items@));
    proof {
        lemma_objects_model(items@);
    }
    let mut i: usize = 0;
    while i < items.len()
        invariant
            i <= items.len(),
            parts == objects_text(objects_model(items@)),
            parts.len() == items.len(),
            forall|j: int|
                0 <= j < parts.len() ==> #[trigger] parts[j] == object_text(
                    object_model(items@[j]),
                ),
            out@ == join(parts.subrange(0, i as int), ", "@),
        decreases items.len() - i,
    {
        if i > 0 {
            out.append(", ");
        }
        out.append(items[i].inspect().as_str());
        proof {
            assert(parts.subrange(0, i + 1).drop_last() =~= parts.subrange(0, i as int));
            assert(parts.subrange(0, i + 1).last() == parts[i as int]);
        }
        i += 1;
    }
    assert(parts.subrange(0, i as int) =~= parts);
    out
}

/// Shows the pairs of a hash, separated by a comma and a space.
pub fn join_hash_pairs(items: &Vec<HashPair>) -> (r: String)
    ensures
        r@ == join(hash_pairs_text(hash_pairs_model(items@)), ", "@),
    decreases items,
{
    let mut out = String::new();
    let ghost parts = hash_pairs_text(hash_pairs_model(items@));
    proof {
        lemma_hash_pairs_model(items@);
    }
    let mut i: usize = 0;
    while i < items.len()
        invariant
            i <= items.len(),
            parts == hash_pairs_text(hash_pairs_model(items@)),
            parts.len() == items.len(),
            forall|j: int|
                0 <= j < parts.len() ==> #[trigger] parts[j] == object_text(
                    object_model(items@[j].key),
                ) + ": "@ + object_text(object_model(items@[j].value)),
            out@ == join(parts.subrange(0, i as int), ", "@),
        decreases items.len() - i,
    {
        if i > 0 {
            out.append(", ");
        }
        let pair = &items[i];
        let mut piece = pair.key.inspect();
        piece.append(": ");
        piece.append(pair.value.inspect().as_str());
        out.append(piece.as_str());
        proof {
            assert(parts.subrange(0, i + 1).drop_last() =~= parts.subrange(0, i as int));
            assert(parts.subrange(0, i + 1).last() == parts[i as int]);
        }
        i += 1;
    }
    assert(parts.subrange(0, i as int) =~= parts);
    out
}

impl ObjectTrait for Array {
    open spec fn spec_kind(&self) -> ObjectType {
        ObjectType::ARRAY
    }

    open spec fn spec_inspect(&self) -> Seq<char> {
        object_text(self@)
    }

    fn kind(&self) -> (r: ObjectType) {
        ObjectType::ARRAY
    }

    fn inspect(&self) -> (r: String)
        decreases self,
    {
        let mut out = "[".to_owned();
        out.append(join_objects(&self.elements).as_str());
        out.append("]");
        out
    }
}

impl ObjectTrait for Null {
    open spec fn spec_kind(&self) -> ObjectType {
        ObjectType::NULL
    }

    open spec fn spec_inspect(&self) -> Seq<char> {
        object_text(self@)
    }

    fn kind(&self) -> (r: ObjectType) {
        ObjectType::NULL
    }

    fn inspect(&self) -> (r: String) {
        "null".to_owned()
    }
}

impl ObjectTrait for Return {
    open spec fn spec_kind(&self) -> ObjectType {
        ObjectType::RETURN
    }

    open spec fn spec_inspect(&self) -> Seq<char> {
        object_text(self@)
    }

    fn kind(&self) -> (r: ObjectType) {
        ObjectType::RETURN
    }

    fn inspect(&self) -> (r: String)
        decreases self,
    {
        self.value.inspect()
    }
}

impl ObjectTrait for Error {
    open spec fn spec_kind(&self) -> ObjectType {
        ObjectType::ERROR
    }

    open spec fn spec_inspect(&self) -> Seq<char> {
        object_text(self@)
    }

    fn kind(&self) -> (r: ObjectType) {
        ObjectType::ERROR
    }

    fn inspect(&self) -> (r: String) {
        let mut out = "Error: ".to_owned();
        out.append(self.msg.as_str());
        out
    }
}

impl ObjectTrait for Function {
    open spec fn spec_kind(&self) -> ObjectType {
        ObjectType::FUNCTION
    }

    open spec fn spec_inspect(&self) -> Seq<char> {
        object_text(self@)
    }

    fn kind(&self) -> (r: ObjectType) {
        ObjectType::FUNCTION
    }

    fn inspect(&self) -> (r: String) {
        let mut out = "fn(".to_owned();
        out.append(join_identifiers(&self.params).as_str());
        out.append("){\n");
        out.append(self.body.string().as_str());
        out.append("\n}");
        out
    }
}

impl ObjectTrait for BuiltInFunc {
    open spec fn spec_kind(&self) -> ObjectType {
        ObjectType::BUILTINFUNC
    }

    open spec fn spec_inspect(&self) -> Seq<char> {
        object_text(self@)
    }

    fn kind(&self) -> (r: ObjectType) {
        ObjectType::BUILTINFUNC
    }

    fn inspect(&self) -> (r: String) {
        "builtin function".to_owned()
    }
}

impl ObjectTrait for HashObject {
    open spec fn spec_kind(&self) -> ObjectType {
        ObjectType::HASH
    }

    open spec fn spec_inspect(&self) -> Seq<char> {
        object_text(self@)
    }

    fn kind(&self) -> (r: ObjectType) {
        ObjectType::HASH
    }

    fn inspect(&self) -> (r: String)
        decreases self,
    {
        let mut out = "{".to_owned();
        out.append(join_hash_pairs(&self.pairs).as_str());
        out.append("}");
        out
    }
}

} // verus!
