//! The result of a parse: the elements in the order in which they were found.
use vstd::prelude::*;
use crate::category::{Element, ElementCategory, ElementView, element_views,
    lemma_element_views_push};
use crate::options::str_views;

verus! {

/// The values of the elements of category `category`, in the order in which
/// they stand in `elements`.
pub open spec fn values_of(elements: Seq<ElementView>, category: ElementCategory) -> Seq<Seq<char>> {
    elements.filter_map(value_if(category))
}

/// Picks the value of an element of category `category`, and nothing of any
/// other element.
pub open spec fn value_if(category: ElementCategory) -> spec_fn(ElementView) -> Option<Seq<char>> {
    |e: ElementView|
        if e.0 == category {
            Some(e.1)
        } else {
            None::<Seq<char>>
        }
}

/// How many elements `count` reports: all of them for `None`, those of one
/// category for `Some`.
pub open spec fn count_of(elements: Seq<ElementView>, category: Option<ElementCategory>) -> nat {
    match category {
        Some(c) => values_of(elements, c).len(),
        None => elements.len(),
    }
}

/// Taking one more element either appends its value or changes nothing.
pub proof fn lemma_values_of_take_succ(elements: Seq<ElementView>, category: ElementCategory, i: int)
    requires
        0 <= i < elements.len(),
    ensures
        values_of(elements.take(i + 1), category) == if elements[i].0 == category {
            values_of(elements.take(i), category).push(elements[i].1)
        } else {
            values_of(elements.take(i), category)
        },
{
    elements.lemma_filter_map_take_succ(value_if(category), i);
    if elements[i].0 == category {
        assert(values_of(elements.take(i), category) + seq![elements[i].1] =~= values_of(
            elements.take(i),
            category,
        ).push(elements[i].1));
    } else {
        assert(values_of(elements.take(i), category) + Seq::<Seq<char>>::empty() =~= values_of(
            elements.take(i),
            category,
        ));
    }
}

/// Collection of the [`Element`]s found in a file name, in the order of their
/// discovery. It can be read and not changed.
#[derive(Debug, Clone, PartialEq, Eq)]
pub struct Elements {
    elements: Vec<Element>,
}

impl View for Elements {
    type V = Seq<ElementView>;

    closed spec fn view(&self) -> Seq<ElementView> {
        element_views(self.elements@)
    }
}

impl Elements {
    /// An empty container.
    pub(crate) fn new() -> (r: Self)
        ensures
            r@ == Seq::<ElementView>::empty(),
    {
        let r = Elements { elements: Vec::new() };
        assert(r@ =~= Seq::<ElementView>::empty());
        r
    }

    /// Appends an element; everything found before keeps its place.
    pub(crate) fn push(&mut self, category: ElementCategory, value: String)
        ensures
            final(self)@ == old(self)@.push((category, value@)),
    {
        let element = Element { category, value };
        proof {
            lemma_element_views_push(self.elements@, element);
        }
        self.elements.push(element);
    }

    /// Determines whether there are no elements of a given category.
    ///
    /// Passing `None` will check for any elements at all.
    pub fn is_empty(&self, category: Option<ElementCategory>) -> (r: bool)
        ensures
            r == (count_of(self@, category) == 0),
    {
        self.count(category) == 0
    }

    /// Counts the number of elements of a given category.
    ///
    /// Passing `None` will count all elements.
    pub fn count(&self, category: Option<ElementCategory>) -> (r: usize)
        ensures
            r == count_of(self@, category),
    {
        match category {
            Some(c) => {
                let mut n: usize = 0;
                let mut i: usize = 0;
                while i < self.elements.len()
                    invariant
                        i <= self.elements.len(),
                        n == values_of(self@.take(i as int), c).len(),
                        n <= i,
                    decreases self.elements.len() - i,
                {
                    proof {
                        lemma_values_of_take_succ(self@, c, i as int);
                    }
                    if self.elements[i].category == c {
                        n += 1;
                    }
                    i += 1;
                }
                assert(self@.take(i as int) =~= self@);
                n
            },
            None => self.elements.len(),
        }
    }

    /// Gets the first element of a category if one exists.
    pub fn get(&self, category: ElementCategory) -> (r: Option<&str>)
        ensures
            match r {
                Some(value) => values_of(self@, category).len() > 0 && value@ == values_of(
                    self@,
                    category,
                )[0],
                None => values_of(self@, category).len() == 0,
            },
    {
        let mut i: usize = 0;
        while i < self.elements.len()
            invariant
                i <= self.elements.len(),
                values_of(self@.take(i as int), category).len() == 0,
            decreases self.elements.len() - i,
        {
            proof {
                lemma_values_of_take_succ(self@, category, i as int);
            }
            if self.elements[i].category == category {
                proof {
                    lemma_values_of_prefix(self@, category, i as int + 1);
                    let found = values_of(self@.take(i as int + 1), category);
                    assert(found.len() == 1);
                    assert(values_of(self@, category).take(1)[0] == found[0]);
                }
                return Some(self.elements[i].value.as_str());
            }
            i += 1;
        }
        assert(self@.take(i as int) =~= self@);
        None
    }

    /// Gets all elements of a category.
    pub fn get_all(&self, category: ElementCategory) -> (r: Vec<&str>)
        ensures
            str_views(r@) == values_of(self@, category),
    {
        let mut out: Vec<&str> = Vec::new();
        let mut i: usize = 0;
        assert(str_views(out@) =~= values_of(self@.take(0), category));
        while i < self.elements.len()
            invariant
                i <= self.elements.len(),
                str_views(out@) == values_of(self@.take(i as int), category),
            decreases self.elements.len() - i,
        {
            proof {
                lemma_values_of_take_succ(self@, category, i as int);
            }
            if self.elements[i].category == category {
                let ghost before = out@;
                let value = self.elements[i].value.as_str();
                out.push(value);
                assert(str_views(out@) =~= str_views(before).push(value@));
            }
            i += 1;
        }
        assert(self@.take(i as int) =~= self@);
        out
    }

    /// Gets the element at the given position if one exists.
    pub fn at(&self, position: usize) -> (r: Option<&Element>)
        ensures
            match r {
                Some(element) => position < self@.len() && element@ == self@[position as int],
                None => position >= self@.len(),
            },
    {
        if position < self.elements.len() {
            Some(&self.elements[position])
        } else {
            None
        }
    }

    /// The elements in the order of their discovery.
    pub fn iterate(&self) -> (r: &Vec<Element>)
        ensures
            element_views(r@) == self@,
    {
        &self.elements
    }
}

/// The values found in a prefix are a prefix of the values found in the whole.
pub proof fn lemma_values_of_prefix(elements: Seq<ElementView>, category: ElementCategory, n: int)
    requires
        0 <= n <= elements.len(),
    ensures
        values_of(elements.take(n), category).len() <= values_of(elements, category).len(),
        values_of(elements, category).take(values_of(elements.take(n), category).len() as int)
            == values_of(elements.take(n), category),
    decreases elements.len() - n,
{
    if n == elements.len() {
        assert(elements.take(n) =~= elements);
        assert(values_of(elements, category).take(values_of(elements, category).len() as int)
            =~= values_of(elements, category));
    } else {
        lemma_values_of_prefix(elements, category, n + 1);
        lemma_values_of_take_succ(elements, category, n);
        let longer = values_of(elements.take(n + 1), category);
        let shorter = values_of(elements.take(n), category);
        assert(values_of(elements, category).take(shorter.len() as int) =~= values_of(
            elements,
            category,
        ).take(longer.len() as int).take(shorter.len() as int));
        assert(longer.take(shorter.len() as int) =~= shorter);
    }
}

impl std::ops::Deref for Elements {
    type Target = Vec<Element>;

    fn deref(&self) -> (r: &Vec<Element>)
        ensures
            element_views(r@) == self@,
    {
        &self.elements
    }
}

/// The elements that a parse has found so far. The passes append to it, and
/// when the parse ends it becomes the [`Elements`] that the caller gets.
#[derive(Debug, Clone, PartialEq, Eq)]
pub struct Findings {
    found: Elements,
}

impl View for Findings {
    type V = Seq<ElementView>;

    closed spec fn view(&self) -> Seq<ElementView> {
        self.found@
    }
}

impl Findings {
    /// Nothing found yet.
    pub fn new() -> (r: Self)
        ensures
            r@ == Seq::<ElementView>::empty(),
    {
        Findings { found: Elements::new() }
    }

    /// Appends an element; everything found before keeps its place.
    pub fn push(&mut self, category: ElementCategory, value: String)
        ensures
            final(self)@ == old(self)@.push((category, value@)),
    {
        self.found.push(category, value);
    }

    /// Determines whether there are no elements of a given category yet, or,
    /// for `None`, no elements at all.
    pub fn is_empty(&self, category: Option<ElementCategory>) -> (r: bool)
        ensures
            r == (count_of(self@, category) == 0),
    {
        self.found.is_empty(category)
    }

    /// Ends the collecting: the elements, in the order in which they were
    /// appended.
    pub fn finish(self) -> (r: Elements)
        ensures
            r@ == self@,
    {
        self.found
    }
}

} // verus!
