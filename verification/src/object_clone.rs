use vstd::prelude::*;
use crate::ast_clone::clone_identifiers;
use crate::object::{
    hash_pairs_model, lemma_hash_pairs_model, lemma_object_model, lemma_objects_model, object_model,
    objects_model, Array, Boolean, BuiltInFunc, Error, Function, HashObject, HashPair, Integer,
    Null, Object, Return, StringLiteral,
};

verus! {

/// Copies a list of values.
pub fn clone_objects(items: &Vec<Object>) -> (r: Vec<Object>)
    ensures
        objects_model(r@) == objects_model(items@),
    decreases items,
{
    let mut out: Vec<Object> = Vec::new();
    let mut i: usize = 0;
    while i < items.len()
        invariant
            i <= items.len(),
            out.len() == i,
            forall|j: int| 0 <= j < i ==> object_model(out@[j]) == object_model(items@[j]),
        decreases items.len() - i,
    {
        out.push(items[i].clone());
        i += 1;
    }
    proof {
        lemma_objects_model(out@);
        lemma_objects_model(items@);
        assert(objects_model(out@) =~= objects_model(items@));
    }
    out
}

/// Copies the pairs of a hash.
pub fn clone_hash_pairs(items: &Vec<HashPair>) -> (r: Vec<HashPair>)
    ensures
        hash_pairs_model(r@) == hash_pairs_model(items@),
    decreases items,
{
    let mut out: Vec<HashPair> = Vec::new();
    let mut i: usize = 0;
    while i < items.len()
        invariant
            i <= items.len(),
            out.len() == i,
            forall|j: int| 0 <= j < i ==> out@[j]@ == items@[j]@,
        decreases items.len() - i,
    {
        out.push(items[i].clone());
        i += 1;
    }
    proof {
        lemma_hash_pairs_model(out@);
        lemma_hash_pairs_model(items@);
        assert(hash_pairs_model(out@) =~= hash_pairs_model(items@));
    }
    out
}

impl Clone for Object {
    fn clone(&self) -> (r: Object)
        ensures
            r@ == self@,
        decreases self,
    {
        let r = match self {
            Object::INTEGER(x) => Object::INTEGER(x.clone()),
            Object::BOOLEAN(x) => Object::BOOLEAN(x.clone()),
            Object::NULL(x) => Object::NULL(x.clone()),
            Object::RETURN(x) => Object::RETURN(x.clone()),
            Object::ERROR(x) => Object::ERROR(x.clone()),
            Object::FN(x) => Object::FN(x.clone()),
            Object::STRING(x) => Object::STRING(x.clone()),
            Object::BUILTINFUNC(x) => Object::BUILTINFUNC(x.clone()),
            Object::ARRAY(x) => Object::ARRAY(x.clone()),
            Object::HashLitearl(x) => Object::HashLitearl(x.clone()),
        };
        proof {
            lemma_object_model(*self);
            lemma_object_model(r);
        }
        r
    }
}

impl Clone for Integer {
    fn clone(&self) -> (r: Integer)
        ensures
            r@ == self@,
    {
        Integer { value: self.value }
    }
}

impl Clone for Boolean {
    fn clone(&self) -> (r: Boolean)
        ensures
            r@ == self@,
    {
        Boolean { value: self.value }
    }
}

impl Clone for Null {
    fn clone(&self) -> (r: Null)
        ensures
            r@ == self@,
    {
        Null {  }
    }
}

impl Clone for Return {
    fn clone(&self) -> (r: Return)
        ensures
            r@ == self@,
        decreases self,
    {
        Return { value: Box::new((*self.value).clone()) }
    }
}

impl Clone for Error {
    fn clone(&self) -> (r: Error)
        ensures
            r@ == self@,
    {
        Error { msg: self.msg.clone() }
    }
}

impl Clone for Function {
    fn clone(&self) -> (r: Function)
        ensures
            r@ == self@,
    {
        Function {
            params: clone_identifiers(&self.params),
            body: self.body.clone(),
            env: self.env,
        }
    }
}

impl Clone for StringLiteral {
    fn clone(&self) -> (r: StringLiteral)
        ensures
            r@ == self@,
    {
        StringLiteral { value: self.value.clone() }
    }
}

impl Clone for BuiltInFunc {
    fn clone(&self) -> (r: BuiltInFunc)
        ensures
            r@ == self@,
    {
        BuiltInFunc { func: self.func }
    }
}

impl Clone for Array {
    fn clone(&self) -> (r: Array)
        ensures
            r@ == self@,
        decreases self,
    {
        Array { elements: clone_objects(&self.elements) }
    }
}

impl Clone for HashObject {
    fn clone(&self) -> (r: HashObject)
        ensures
            r@ == self@,
        decreases self,
    {
        HashObject { pairs: clone_hash_pairs(&self.pairs) }
    }
}

impl Clone for HashPair {
    fn clone(&self) -> (r: HashPair)
        ensures
            r@ == self@,
        decreases self,
    {
        HashPair { key: self.key.clone(), value: self.value.clone() }
    }
}

} // verus!
