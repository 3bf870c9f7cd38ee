use vstd::prelude::*;

verus! {

/// The command of a target, with an optional human-readable description.
#[derive(Clone, Debug)]
pub struct Rule {
    pub command: String,
    pub description: Option<String>,
}

/// A target of the build graph.
#[derive(Clone, Debug)]
pub struct Build {
    pub id: String,
    pub rule: Option<Rule>,
    pub inputs: Vec<String>,
    pub order_only_inputs: Vec<String>,
    pub outputs: Vec<String>,
    pub implicit_outputs: Vec<String>,
    pub dynamic_module: Option<String>,
}

/// The targets of a build, and the outputs built when none is asked for.
///
/// A dynamic module compiles to a value of this type too (a fragment), whose
/// targets list additional inputs per output.
#[derive(Clone, Debug)]
pub struct Configuration {
    pub builds: Vec<Build>,
    pub default_outputs: Vec<String>,
}

/// `b` lists `name` among its outputs.
pub open spec fn produces(b: Build, name: Seq<char>) -> bool {
    exists|k: int| 0 <= k < b.outputs@.len() && (#[trigger] b.outputs@[k])@ == name
}

/// Some target of `builds` produces `name`.
pub open spec fn has_producer(builds: Seq<Build>, name: Seq<char>) -> bool {
    exists|j: int| 0 <= j < builds.len() && produces(#[trigger] builds[j], name)
}

/// `i` is the first target of `builds` that produces `name`.
pub open spec fn is_first_producer(builds: Seq<Build>, name: Seq<char>, i: int) -> bool {
    &&& 0 <= i < builds.len()
    &&& produces(builds[i], name)
    &&& forall|j: int| 0 <= j < i ==> !produces(#[trigger] builds[j], name)
}

/// Whether `name` is one of `names`.
pub fn contains_name(names: &Vec<String>, name: &String) -> (r: bool)
    ensures
        r == exists|k: int| 0 <= k < names@.len() && (#[trigger] names@[k])@ == name@,
{
    let mut k: usize = 0;
    while k < names.len()
        invariant
            k <= names@.len(),
            forall|m: int| 0 <= m < k ==> (#[trigger] names@[m])@ != name@,
        decreases names@.len() - k,
    {
        if names[k] == *name {
            return true;
        }
        k += 1;
    }
    false
}

impl Configuration {
    /// The index of the first target that produces `name`, if any.
    pub fn producer_of(&self, name: &String) -> (r: Option<usize>)
        ensures
            match r {
                Some(i) => is_first_producer(self.builds@, name@, i as int),
                None => !has_producer(self.builds@, name@),
            },
    {
        let mut j: usize = 0;
        while j < self.builds.len()
            invariant
                j <= self.builds@.len(),
                forall|m: int| 0 <= m < j ==> !produces(#[trigger] self.builds@[m], name@),
            decreases self.builds@.len() - j,
        {
            if contains_name(&self.builds[j].outputs, name) {
                return Some(j);
            }
            j += 1;
        }
        None
    }
}

/// The target of `fragment` that gives the additional inputs of a target with
/// the given outputs: the first producer of the first of `outputs` that
/// `fragment` produces, or `None` where it produces none of them.
pub fn find_dynamic_match(fragment: &Configuration, outputs: &Vec<String>) -> (r: Option<usize>)
    ensures
        match r {
            Some(i) => exists|k: int|
                0 <= k < outputs@.len() && is_first_producer(
                    fragment.builds@,
                    (#[trigger] outputs@[k])@,
                    i as int,
                ) && forall|m: int|
                    0 <= m < k ==> !has_producer(fragment.builds@, (#[trigger] outputs@[m])@),
            None => forall|k: int|
                0 <= k < outputs@.len() ==> !has_producer(
                    fragment.builds@,
                    (#[trigger] outputs@[k])@,
                ),
        },
{
    let mut k: usize = 0;
    while k < outputs.len()
        invariant
            k <= outputs@.len(),
            forall|m: int|
                0 <= m < k ==> !has_producer(fragment.builds@, (#[trigger] outputs@[m])@),
        decreases outputs@.len() - k,
    {
        match fragment.producer_of(&outputs[k]) {
            Some(i) => {
                assert(is_first_producer(fragment.builds@, outputs@[k as int]@, i as int));
                return Some(i);
            },
            None => {},
        }
        k += 1;
    }
    None
}

} // verus!
