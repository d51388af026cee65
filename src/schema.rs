//! The reflection schema: classes, their superclass chains and the
//! descriptors of their properties.
use vstd::prelude::*;
use vstd::set_lib::{lemma_int_range, lemma_len_subset, set_int_range};
use crate::value::{PropertyKind, PropertyValue};

verus! {

/// What the schema says of one property of a class.
#[derive(Debug, Clone)]
pub struct PropertyDescriptor {
    pub name: String,
    pub kind: PropertyKind,
    pub default: Option<PropertyValue>,
    /// Whether a value equal to `default` may be left out on write.
    pub elidable: bool,
}

/// A class of instances: its name, the name of its superclass, if any, and
/// the properties it declares itself.
#[derive(Debug, Clone)]
pub struct ClassDescriptor {
    pub name: String,
    pub superclass: Option<String>,
    pub properties: Vec<PropertyDescriptor>,
}

/// A read-only mapping from class name to class descriptor.
#[derive(Debug, Clone)]
pub struct ReflectionDatabase {
    pub classes: Vec<ClassDescriptor>,
}

/// The first index at or after `k` of a class named `name`.
pub open spec fn find_class_from(classes: Seq<ClassDescriptor>, name: Seq<char>, k: int) -> Option<int>
    decreases classes.len() - k,
{
    if k < 0 || k >= classes.len() {
        None
    } else if classes[k].name@ == name {
        Some(k)
    } else {
        find_class_from(classes, name, k + 1)
    }
}

/// The index of the first class named `name`.
pub open spec fn find_class(classes: Seq<ClassDescriptor>, name: Seq<char>) -> Option<int> {
    find_class_from(classes, name, 0)
}

/// The first index at or after `k` of a property descriptor named `name`.
pub open spec fn find_prop_from(props: Seq<PropertyDescriptor>, name: Seq<char>, k: int) -> Option<int>
    decreases props.len() - k,
{
    if k < 0 || k >= props.len() {
        None
    } else if props[k].name@ == name {
        Some(k)
    } else {
        find_prop_from(props, name, k + 1)
    }
}

/// The index of the class that class `i` names as its superclass; `None` at
/// a root class, or where the name is not in the schema.
pub open spec fn superclass_index(classes: Seq<ClassDescriptor>, i: int) -> Option<int> {
    match classes[i].superclass {
        Some(s) => find_class(classes, s@),
        None => None,
    }
}

/// Class `i` followed by its superclasses, nearest first, at most `fuel` of
/// them in all.
pub open spec fn chain_from(classes: Seq<ClassDescriptor>, i: int, fuel: nat) -> Seq<int>
    decreases fuel,
{
    if fuel == 0 {
        seq![]
    } else {
        seq![i] + match superclass_index(classes, i) {
            Some(p) => chain_from(classes, p, (fuel - 1) as nat),
            None => seq![],
        }
    }
}

/// The superclass chain of class `i`: itself first, then each superclass in
/// turn, up to a root class. A chain that would come back to a class it has
/// passed is cut after as many steps as there are classes.
pub open spec fn superclass_chain(classes: Seq<ClassDescriptor>, i: int) -> Seq<int> {
    chain_from(classes, i, classes.len())
}

/// The nearest class of `chain` that declares a property named `name`, with
/// the index of that declaration.
pub open spec fn find_in_chain(classes: Seq<ClassDescriptor>, chain: Seq<int>, name: Seq<char>) -> Option<(int, int)>
    decreases chain.len(),
{
    if chain.len() == 0 {
        None
    } else {
        match find_prop_from(classes[chain[0]].properties@, name, 0) {
            Some(j) => Some((chain[0], j)),
            None => find_in_chain(classes, chain.drop_first(), name),
        }
    }
}

/// The descriptor of property `name` for class `i`: that of the nearest
/// class of its chain that declares it.
pub open spec fn descriptor_for(classes: Seq<ClassDescriptor>, i: int, name: Seq<char>) -> Option<(int, int)> {
    find_in_chain(classes, superclass_chain(classes, i), name)
}

/// The descriptor of property `prop` for the class named `class_name`;
/// `None` where the class or the property is not in the schema.
pub open spec fn declared_descriptor(classes: Seq<ClassDescriptor>, class_name: Seq<char>, prop: Seq<char>) -> Option<(int, int)> {
    match find_class(classes, class_name) {
        Some(i) => descriptor_for(classes, i, prop),
        None => None,
    }
}

/// The kind that the schema declares for property `prop` of the class named
/// `class_name`.
pub open spec fn declared_kind(classes: Seq<ClassDescriptor>, class_name: Seq<char>, prop: Seq<char>) -> Option<PropertyKind> {
    match declared_descriptor(classes, class_name, prop) {
        Some((c, j)) => Some(classes[c].properties@[j].kind),
        None => None,
    }
}

pub open spec fn as_ints(s: Seq<usize>) -> Seq<int> {
    s.map_values(|x: usize| x as int)
}

proof fn lemma_find_class_from_valid(classes: Seq<ClassDescriptor>, name: Seq<char>, k: int)
    ensures
        find_class_from(classes, name, k) matches Some(i) ==> 0 <= i < classes.len()
            && classes[i].name@ == name,
    decreases classes.len() - k,
{
    if 0 <= k < classes.len() && classes[k].name@ != name {
        lemma_find_class_from_valid(classes, name, k + 1);
    }
}

proof fn lemma_find_prop_from_valid(props: Seq<PropertyDescriptor>, name: Seq<char>, k: int)
    ensures
        find_prop_from(props, name, k) matches Some(j) ==> 0 <= j < props.len()
            && props[j].name@ == name,
    decreases props.len() - k,
{
    if 0 <= k < props.len() && props[k].name@ != name {
        lemma_find_prop_from_valid(props, name, k + 1);
    }
}

/// Every class of a chain that starts at a class of the schema is a class of
/// the schema.
pub proof fn lemma_chain_valid(classes: Seq<ClassDescriptor>, i: int, fuel: nat)
    requires
        0 <= i < classes.len(),
    ensures
        forall|k: int| 0 <= k < chain_from(classes, i, fuel).len()
            ==> 0 <= #[trigger] chain_from(classes, i, fuel)[k] < classes.len(),
    decreases fuel,
{
    if fuel > 0 {
        if let Some(s) = classes[i].superclass {
            lemma_find_class_from_valid(classes, s@, 0);
        }
        let chain = chain_from(classes, i, fuel);
        match superclass_index(classes, i) {
            Some(p) => {
                let rest = chain_from(classes, p, (fuel - 1) as nat);
                lemma_chain_valid(classes, p, (fuel - 1) as nat);
                assert(chain == seq![i] + rest);
                assert forall|k: int| 0 <= k < chain.len() implies 0 <= #[trigger] chain[k] < classes.len() by {
                    if k > 0 {
                        assert(chain[k] == rest[k - 1]);
                    }
                }
            },
            None => {
                assert(chain == seq![i]);
            },
        }
    }
}

/// A descriptor found along a chain of classes of the schema is a property
/// descriptor of the schema.
pub proof fn lemma_find_in_chain_valid(classes: Seq<ClassDescriptor>, chain: Seq<int>, name: Seq<char>)
    requires
        forall|k: int| 0 <= k < chain.len() ==> 0 <= #[trigger] chain[k] < classes.len(),
    ensures
        find_in_chain(classes, chain, name) matches Some((c, j)) ==> 0 <= c < classes.len()
            && 0 <= j < classes[c].properties@.len() && classes[c].properties@[j].name@ == name,
    decreases chain.len(),
{
    if chain.len() > 0 {
        lemma_find_prop_from_valid(classes[chain[0]].properties@, name, 0);
        let rest = chain.drop_first();
        assert forall|k: int| 0 <= k < rest.len() implies 0 <= #[trigger] rest[k] < classes.len() by {
            assert(rest[k] == chain[k + 1]);
        }
        lemma_find_in_chain_valid(classes, rest, name);
    }
}

/// For a chain of classes A, B, C and a root class R, where each names the
/// next as its superclass and R names none, the superclass chain of A is
/// exactly A, B, C, R.
pub proof fn lemma_superclass_chain_of_four(classes: Seq<ClassDescriptor>, a: int, b: int, c: int, root: int)
    requires
        0 <= a < classes.len(),
        0 <= b < classes.len(),
        0 <= c < classes.len(),
        0 <= root < classes.len(),
        superclass_index(classes, a) == Some(b),
        superclass_index(classes, b) == Some(c),
        superclass_index(classes, c) == Some(root),
        superclass_index(classes, root) is None,
    ensures
        superclass_chain(classes, a) == seq![a, b, c, root],
{
    // The four classes are distinct, so the schema holds at least four.
    let four = set![a, b, c, root];
    assert(b != a && c != a && c != b && root != a && root != b && root != c);
    assert(four.len() == 4) by {
        assert(set![a].len() == 1);
        assert(!set![a].contains(b));
        assert(!set![a, b].contains(c));
        assert(!set![a, b, c].contains(root));
    }
    lemma_int_range(0, classes.len() as int);
    lemma_len_subset(four, set_int_range(0, classes.len() as int));
    let n = classes.len();
    assert(chain_from(classes, root, (n - 3) as nat) == seq![root]);
    assert(chain_from(classes, c, (n - 2) as nat) == seq![c, root]);
    assert(chain_from(classes, b, (n - 1) as nat) == seq![b, c, root]);
    assert(chain_from(classes, a, n) == seq![a, b, c, root]);
}

impl ReflectionDatabase {
    /// Finds the first class named `name`.
    pub fn lookup(&self, name: &str) -> (r: Option<usize>)
        ensures
            match find_class(self.classes@, name@) {
                Some(i) => r matches Some(q) && q as int == i && 0 <= i < self.classes@.len(),
                None => r is None,
            },
    {
        proof {
            lemma_find_class_from_valid(self.classes@, name@, 0);
        }
        let mut i: usize = 0;
        while i < self.classes.len()
            invariant
                i <= self.classes@.len(),
                find_class(self.classes@, name@) == find_class_from(self.classes@, name@, i as int),
            decreases self.classes@.len() - i,
        {
            if crate::value::same_text(self.classes[i].name.as_str(), name) {
                return Some(i);
            }
            i = i + 1;
        }
        None
    }

    /// The index of the superclass of class `class`, if the schema holds it.
    fn superclass_of(&self, class: usize) -> (r: Option<usize>)
        requires
            class < self.classes@.len(),
        ensures
            match superclass_index(self.classes@, class as int) {
                Some(p) => r matches Some(q) && q as int == p && 0 <= p < self.classes@.len(),
                None => r is None,
            },
    {
        match &self.classes[class].superclass {
            Some(s) => {
                proof {
                    lemma_find_class_from_valid(self.classes@, s@, 0);
                }
                self.lookup(s.as_str())
            },
            None => None,
        }
    }

    /// Class `class` followed by its superclasses, nearest first, ending
    /// with a root class.
    pub fn superclasses_of(&self, class: usize) -> (r: Vec<usize>)
        requires
            class < self.classes@.len(),
        ensures
            as_ints(r@) == superclass_chain(self.classes@, class as int),
    {
        let ghost classes = self.classes@;
        let mut out: Vec<usize> = Vec::new();
        let mut cur: usize = class;
        let mut fuel: usize = self.classes.len();
        while fuel > 0
            invariant
                cur < classes.len(),
                classes == self.classes@,
                fuel <= classes.len(),
                as_ints(out@) + chain_from(classes, cur as int, fuel as nat)
                    == superclass_chain(classes, class as int),
            decreases fuel,
        {
            let ghost before = out@;
            out.push(cur);
            assert(as_ints(out@) == as_ints(before) + seq![cur as int]);
            let sup = self.superclass_of(cur);
            match sup {
                Some(p) => {
                    assert(superclass_index(classes, cur as int) == Some(p as int));
                    assert(chain_from(classes, cur as int, fuel as nat) == seq![cur as int]
                        + chain_from(classes, p as int, (fuel - 1) as nat));
                    cur = p;
                    fuel = fuel - 1;
                },
                None => {
                    assert(chain_from(classes, cur as int, fuel as nat) == seq![cur as int]);
                    fuel = 0;
                },
            }
            assert(as_ints(out@) + chain_from(classes, cur as int, fuel as nat)
                == superclass_chain(classes, class as int));
        }
        assert(chain_from(classes, cur as int, 0) == Seq::<int>::empty());
        assert(as_ints(out@) + Seq::<int>::empty() == as_ints(out@));
        out
    }

    /// Whether `candidate` is on the superclass chain of `class`. A class
    /// counts as its own ancestor.
    pub fn is_ancestor(&self, candidate: usize, class: usize) -> (r: bool)
        requires
            class < self.classes@.len(),
        ensures
            r == superclass_chain(self.classes@, class as int).contains(candidate as int),
    {
        let chain = self.superclasses_of(class);
        let ghost full = superclass_chain(self.classes@, class as int);
        let mut k: usize = 0;
        while k < chain.len()
            invariant
                k <= chain@.len(),
                as_ints(chain@) == full,
                full == superclass_chain(self.classes@, class as int),
                full.len() == chain@.len(),
                forall|m: int| 0 <= m < k ==> full[m] != candidate as int,
            decreases chain@.len() - k,
        {
            assert(full[k as int] == chain@[k as int] as int);
            if chain[k] == candidate {
                assert(full[k as int] == candidate as int);
                assert(full.contains(candidate as int));
                return true;
            }
            k = k + 1;
        }
        false
    }

    /// Finds the first property descriptor named `name` declared by class
    /// `class` itself.
    fn own_property(&self, class: usize, name: &str) -> (r: Option<usize>)
        requires
            class < self.classes@.len(),
        ensures
            match find_prop_from(self.classes@[class as int].properties@, name@, 0) {
                Some(j) => r matches Some(q) && q as int == j && 0 <= j < self.classes@[class as int].properties@.len(),
                None => r is None,
            },
    {
        let props = &self.classes[class].properties;
        assert(props@ == self.classes@[class as int].properties@);
        proof {
            lemma_find_prop_from_valid(props@, name@, 0);
        }
        let mut j: usize = 0;
        while j < props.len()
            invariant
                j <= props@.len(),
                props@ == self.classes@[class as int].properties@,
                find_prop_from(props@, name@, 0) == find_prop_from(props@, name@, j as int),
            decreases props@.len() - j,
        {
            if crate::value::same_text(props[j].name.as_str(), name) {
                return Some(j);
            }
            j = j + 1;
        }
        None
    }

    /// Finds the descriptor of property `name` for class `class`: the one
    /// declared by the nearest class of its superclass chain. The result is
    /// the index of that class and of the descriptor within it.
    pub fn find_property(&self, class: usize, name: &str) -> (r: Option<(usize, usize)>)
        requires
            class < self.classes@.len(),
        ensures
            match descriptor_for(self.classes@, class as int, name@) {
                Some((c, j)) => r matches Some((rc, rj)) && rc as int == c && rj as int == j,
                None => r is None,
            },
            r matches Some((c, j)) ==> c < self.classes@.len()
                && j < self.classes@[c as int].properties@.len(),
    {
        let chain = self.superclasses_of(class);
        let ghost classes = self.classes@;
        proof {
            lemma_chain_valid(classes, class as int, classes.len());
            assert forall|m: int| 0 <= m < chain@.len() implies (#[trigger] chain@[m]) < classes.len() by {
                assert(as_ints(chain@)[m] == chain@[m] as int);
            }
            assert(as_ints(chain@).skip(0) == as_ints(chain@));
            lemma_find_in_chain_valid(classes, superclass_chain(classes, class as int), name@);
        }
        let mut k: usize = 0;
        while k < chain.len()
            invariant
                k <= chain@.len(),
                classes == self.classes@,
                as_ints(chain@) == superclass_chain(classes, class as int),
                forall|m: int| 0 <= m < chain@.len() ==> (#[trigger] chain@[m]) < classes.len(),
                descriptor_for(classes, class as int, name@)
                    == find_in_chain(classes, as_ints(chain@).skip(k as int), name@),
            decreases chain@.len() - k,
        {
            assert(as_ints(chain@)[k as int] == chain@[k as int] as int);
            let c = chain[k];
            let ghost rest = as_ints(chain@).skip(k as int);
            assert(rest[0] == c as int);
            assert(rest.drop_first() == as_ints(chain@).skip(k + 1));
            match self.own_property(c, name) {
                Some(j) => {
                    proof {
                        lemma_find_prop_from_valid(classes[c as int].properties@, name@, 0);
                    }
                    return Some((c, j));
                },
                None => {},
            }
            k = k + 1;
        }
        assert(as_ints(chain@).skip(k as int).len() == 0);
        None
    }

    /// Finds the descriptor of property `prop` for the class named
    /// `class_name`; `None` where the class or the property is not in the
    /// schema.
    pub fn descriptor_of(&self, class_name: &str, prop: &str) -> (r: Option<(usize, usize)>)
        ensures
            match declared_descriptor(self.classes@, class_name@, prop@) {
                Some((c, j)) => r matches Some((rc, rj)) && rc as int == c && rj as int == j,
                None => r is None,
            },
            r matches Some((c, j)) ==> c < self.classes@.len()
                && j < self.classes@[c as int].properties@.len(),
    {
        match self.lookup(class_name) {
            Some(i) => self.find_property(i, prop),
            None => None,
        }
    }
}

} // verus!
