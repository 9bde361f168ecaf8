//! Assorted small utilities: comparisons, string helpers, a singly
//! linked mutable stack, greetings, and a few vector exercises.

use vstd::prelude::*;
use vstd::string::StrSliceExecFns;
use vstd::string::StringExecFns;

verus! {

broadcast use vstd::std_specs::vec::axiom_spec_len;

/// The larger of two integers, the second when they are equal.
pub fn max(a: &i64, b: &i64) -> (result: i64)
    ensures
        result == if *a > *b {
            *a
        } else {
            *b
        },
{
    if *a > *b {
        return *a;
    }
    *b
}

/// Index of the first space in `s`, or its length when `s` has none.
pub open spec fn first_space(s: Seq<char>) -> int
    decreases s.len(),
{
    if s.len() == 0 {
        0
    } else if s[0] == ' ' {
        0
    } else {
        1 + first_space(s.drop_first())
    }
}

proof fn lemma_first_space_at(s: Seq<char>, i: int)
    requires
        0 <= i <= s.len(),
        forall|j: int| 0 <= j < i ==> s[j] != ' ',
        i < s.len() ==> s[i] == ' ',
    ensures
        first_space(s) == i,
    decreases s.len(),
{
    if s.len() > 0 && i > 0 {
        assert forall|j: int| 0 <= j < i - 1 implies s.drop_first()[j] != ' ' by {
            assert(s[j + 1] != ' ');
        }
        lemma_first_space_at(s.drop_first(), i - 1);
    }
}

/// The prefix of `s` that runs up to its first space.
pub fn first_word(s: &str) -> (result: &str)
    ensures
        result@ == s@.subrange(0, first_space(s@)),
{
    let n = s.unicode_len();
    let mut i: usize = 0;
    while i < n
        invariant
            n == s@.len(),
            i <= n,
            forall|j: int| 0 <= j < i ==> s@[j] != ' ',
        decreases n - i,
    {
        if s.get_char(i) == ' ' {
            proof {
                lemma_first_space_at(s@, i as int);
            }
            return s.substring_char(0, i);
        }
        i = i + 1;
    }
    proof {
        lemma_first_space_at(s@, n as int);
        assert(s@.subrange(0, n as int) =~= s@);
    }
    s
}

/// One link of a [`MutStack`].
pub struct Node<T> {
    pub value: T,
    pub next: Option<Box<Node<T>>>,
}

/// A last-in, first-out stack over a singly linked list of nodes.
pub struct MutStack<T> {
    pub head: Option<Box<Node<T>>>,
}

/// The values hanging off a chain of nodes, deepest first, so that the
/// value nearest the head comes last.
pub open spec fn node_seq<T>(node: &Option<Box<Node<T>>>) -> Seq<T>
    decreases node,
{
    match node {
        Option::None => Seq::empty(),
        Option::Some(n) => node_seq(&n.next).push(n.value),
    }
}

impl<T> View for MutStack<T> {
    type V = Seq<T>;

    /// The stacked values, bottom first; the top of the stack is last.
    open spec fn view(&self) -> Seq<T> {
        node_seq(&self.head)
    }
}

impl<T> MutStack<T> {
    /// An empty stack.
    pub fn new() -> (result: Self)
        ensures
            result@ == Seq::<T>::empty(),
    {
        MutStack { head: None }
    }

    /// Puts `value` on top of the stack.
    pub fn push(&mut self, value: T)
        ensures
            final(self)@ == old(self)@.push(value),
    {
        let tail = self.head.take();
        let node = Node { value, next: tail };
        self.head = Some(Box::new(node));
    }

    /// A look at the top value, if any, without removing it.
    pub fn peek(&self) -> (result: Option<&T>)
        ensures
            match result {
                Option::Some(v) => self@.len() > 0 && *v == self@.last(),
                Option::None => self@.len() == 0,
            },
    {
        match &self.head {
            Some(n) => Some(&n.value),
            None => None,
        }
    }

    /// Takes the top value off the stack, if any.
    pub fn pop(&mut self) -> (result: Option<T>)
        ensures
            match result {
                Option::Some(v) => old(self)@.len() > 0 && v == old(self)@.last() && final(self)@
                    == old(self)@.drop_last(),
                Option::None => old(self)@.len() == 0 && final(self)@ == old(self)@,
            },
    {
        match self.head.take() {
            Some(old_head) => {
                self.head = old_head.next;
                Some(old_head.value)
            },
            None => None,
        }
    }

    /// True when nothing is stacked.
    pub fn is_empty(&self) -> (result: bool)
        ensures
            result == (self@.len() == 0),
    {
        self.head.is_none()
    }
}

/// Somebody with a name and an age.
pub struct Person {
    pub name: String,
    pub age: i32,
}

/// Something that can introduce itself.
pub trait SaysHi {
    /// The introduction this implementer gives.
    spec fn greeting(&self) -> Seq<char>;

    /// Builds the introduction.
    fn says_hi(&self) -> (result: String)
        ensures
            result@ == self.greeting(),
    ;
}

impl SaysHi for Person {
    open spec fn greeting(&self) -> Seq<char> {
        "Hi, I am "@ + self.name@
    }

    fn says_hi(&self) -> (result: String) {
        let mut s = String::from_str("Hi, I am ");
        s.append(self.name.as_str());
        s
    }
}

/// The sum of the values of `s`, as an unbounded integer.
pub open spec fn spec_sum(s: Seq<i32>) -> int
    decreases s.len(),
{
    if s.len() == 0 {
        0
    } else {
        spec_sum(s.drop_last()) + s.last()
    }
}

/// Adds up a vector of integers. Every partial sum must fit in `i32`,
/// as the addition is carried out in that type.
pub fn vec_sum(vec: &Vec<i32>) -> (result: i32)
    requires
        forall|k: int| 0 <= k <= vec@.len() ==> i32::MIN <= spec_sum(#[trigger] vec@.take(k))
            <= i32::MAX,
    ensures
        result == spec_sum(vec@),
{
    let mut total: i32 = 0;
    let mut i: usize = 0;
    while i < vec.len()
        invariant
            i <= vec@.len(),
            total == spec_sum(vec@.take(i as int)),
            forall|k: int| 0 <= k <= vec@.len() ==> i32::MIN <= spec_sum(#[trigger] vec@.take(k))
                <= i32::MAX,
        decreases vec@.len() - i,
    {
        proof {
            assert(vec@.take(i + 1).drop_last() =~= vec@.take(i as int));
            assert(vec@.take(i + 1).last() == vec@[i as int]);
        }
        total = total + vec[i];
        i = i + 1;
    }
    proof {
        assert(vec@.take(vec@.len() as int) =~= vec@);
    }
    total
}

/// The least and the greatest value of a slice, or `None` when it is
/// empty.
pub fn max_min_int(vec: &[i32]) -> (result: Option<(i32, i32)>)
    ensures
        match result {
            Option::Some(p) => {
                &&& vec@.len() > 0
                &&& vec@.contains(p.0)
                &&& vec@.contains(p.1)
                &&& forall|i: int| 0 <= i < vec@.len() ==> p.0 <= #[trigger] vec@[i] <= p.1
            },
            Option::None => vec@.len() == 0,
        },
{
    if vec.len() == 0 {
        return None;
    }
    let mut low: i32 = vec[0];
    let mut high: i32 = vec[0];
    let mut i: usize = 1;
    while i < vec.len()
        invariant
            1 <= i <= vec@.len(),
            vec@.contains(low),
            vec@.contains(high),
            forall|j: int| 0 <= j < i ==> low <= #[trigger] vec@[j] <= high,
        decreases vec@.len() - i,
    {
        if vec[i] < low {
            low = vec[i];
        }
        if vec[i] > high {
            high = vec[i];
        }
        i = i + 1;
    }
    Some((low, high))
}

/// The strings of `s` that contain the letter `a`, in their given order.
pub open spec fn with_letter_a(s: Seq<String>) -> Seq<String> {
    s.filter(|x: String| x@.contains('a'))
}

/// True when `c` occurs in `s`.
fn str_contains_char(s: &str, c: char) -> (result: bool)
    ensures
        result == s@.contains(c),
{
    let n = s.unicode_len();
    let mut i: usize = 0;
    while i < n
        invariant
            n == s@.len(),
            i <= n,
            forall|j: int| 0 <= j < i ==> s@[j] != c,
        decreases n - i,
    {
        if s.get_char(i) == c {
            return true;
        }
        i = i + 1;
    }
    false
}

/// Keeps the strings that contain the letter `a`.
pub fn filter_a(s: Vec<String>) -> (result: Vec<String>)
    ensures
        result@ == with_letter_a(s@),
{
    let mut result: Vec<String> = Vec::new();
    let mut i: usize = 0;
    proof {
        reveal(Seq::filter);
        assert(s@.take(0).filter(|x: String| x@.contains('a')) =~= Seq::<String>::empty());
    }
    while i < s.len()
        invariant
            i <= s@.len(),
            result@ == s@.take(i as int).filter(|x: String| x@.contains('a')),
        decreases s@.len() - i,
    {
        let keep = str_contains_char(s[i].as_str(), 'a');
        proof {
            reveal(Seq::filter);
            assert(s@.take(i + 1).drop_last() =~= s@.take(i as int));
            assert(s@.take(i + 1).last() == s@[i as int]);
        }
        if keep {
            result.push(s[i].clone());
        }
        i = i + 1;
    }
    proof {
        assert(s@.take(s@.len() as int) =~= s@);
    }
    result
}

/// Doubles every value. The doubled values must fit in `i32`.
pub fn double(s: Vec<i32>) -> (result: Vec<i32>)
    requires
        forall|i: int| 0 <= i < s@.len() ==> i32::MIN <= 2 * #[trigger] s@[i] <= i32::MAX,
    ensures
        result@.len() == s@.len(),
        forall|i: int| 0 <= i < s@.len() ==> result@[i] == 2 * #[trigger] s@[i],
{
    let mut result: Vec<i32> = Vec::new();
    let mut i: usize = 0;
    while i < s.len()
        invariant
            i <= s@.len(),
            result@.len() == i,
            forall|j: int| 0 <= j < i ==> result@[j] == 2 * #[trigger] s@[j],
            forall|j: int| 0 <= j < s@.len() ==> i32::MIN <= 2 * #[trigger] s@[j] <= i32::MAX,
        decreases s@.len() - i,
    {
        result.push(2 * s[i]);
        i = i + 1;
    }
    result
}

/// A list built of owned cells, ending in `Nil`.
pub enum LinkedList<T> {
    Cons(T, Box<LinkedList<T>>),
    Nil,
}

/// Puts `value` in front of `tail`.
pub fn cons<T>(value: T, tail: LinkedList<T>) -> (result: LinkedList<T>)
    ensures
        (result matches LinkedList::Cons(v, t) && v == value && *t == tail),
{
    LinkedList::Cons(value, Box::new(tail))
}

/// The longer of two string slices measured in bytes, the second when
/// they measure the same.
pub fn longest<'a>(s1: &'a str, s2: &'a str) -> (result: &'a str)
    ensures
        result@ == if s1.len() > s2.len() {
            s1@
        } else {
            s2@
        },
{
    if s1.len() > s2.len() {
        return s1;
    }
    s2
}

} // verus!
