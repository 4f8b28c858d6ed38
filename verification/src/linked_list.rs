//! An immutable singly linked list with shared tails.
use vstd::prelude::*;
use std::rc::Rc;

use crate::text::{int_dec, push_i128, push_str, push_u128, string_from_chars};

verus! {

/// A list: an item followed by a shared tail, or the empty list.
#[derive(Debug, PartialEq, Eq, Clone)]
pub enum List<T> {
    Cons(T, Rc<List<T>>),
    Nil,
}

impl<T> List<T> {
    /// The items of the list, head first.
    pub open spec fn items(self) -> Seq<T>
        decreases self,
    {
        match self {
            List::Nil => Seq::empty(),
            List::Cons(h, t) => seq![h] + (*t).items(),
        }
    }
}

impl<T> View for List<T> {
    type V = Seq<T>;

    open spec fn view(&self) -> Seq<T> {
        self.items()
    }
}

/// Whether `r` holds, in reverse order, clones of the items of `s`.
pub open spec fn is_reversal_of<T: Clone>(r: Seq<T>, s: Seq<T>) -> bool {
    &&& r.len() == s.len()
    &&& forall|i: int| 0 <= i < s.len() ==> cloned(#[trigger] s[s.len() - 1 - i], r[i])
}

/// Whether every clone of a `T` equals the value it was cloned from.
pub open spec fn clones_are_equal<T: Clone>() -> bool {
    forall|a: T, b: T| #[trigger] cloned(a, b) ==> a == b
}

impl<T: Clone> List<T> {
    /// A new list of clones of the items of this one, in reverse order.
    pub fn reverse(&self) -> (r: List<T>)
        ensures
            is_reversal_of(r@, self@),
            clones_are_equal::<T>() ==> r@ == self@.reverse(),
    {
        let mut acc: List<T> = List::Nil;
        let mut cur: &List<T> = self;
        let ghost mut done: int = 0;
        loop
            invariant
                0 <= done <= self@.len(),
                cur@ == self@.skip(done),
                acc@.len() == done,
                forall|i: int| 0 <= i < done ==> cloned(#[trigger] self@[done - 1 - i], acc@[i]),
            ensures
                done == self@.len(),
                acc@.len() == done,
                forall|i: int| 0 <= i < done ==> cloned(#[trigger] self@[done - 1 - i], acc@[i]),
            decreases self@.len() - done,
        {
            match cur {
                List::Cons(head, tail) => {
                    assert(cur@ == seq![*head] + (**tail)@);
                    assert(self@.skip(done)[0] == *head);
                    assert(self@.skip(done + 1) =~= self@.skip(done).drop_first());
                    assert((seq![*head] + (**tail)@).drop_first() =~= (**tail)@);
                    let h = head.clone();
                    assert(cloned(*head, h));
                    let ghost old_acc = acc@;
                    acc = List::Cons(h, Rc::new(acc));
                    assert(acc@ =~= seq![h] + old_acc);
                    cur = &**tail;
                    proof {
                        done = done + 1;
                        assert forall|i: int| 0 <= i < done implies cloned(
                            #[trigger] self@[done - 1 - i],
                            acc@[i],
                        ) by {
                            if i == 0 {
                                assert(self@[done - 1] == *head);
                            } else {
                                assert(acc@[i] == old_acc[i - 1]);
                                assert(self@[done - 1 - i] == self@[(done - 1) - 1 - (i - 1)]);
                            }
                        }
                    }
                },
                List::Nil => {
                    assert(self@.skip(done).len() == 0);
                    break;
                },
            }
        }
        proof {
            if clones_are_equal::<T>() {
                assert forall|i: int| 0 <= i < self@.len() implies acc@[i] == self@.reverse()[i] by {
                    assert(cloned(self@[self@.len() - 1 - i], acc@[i]));
                }
                assert(acc@ =~= self@.reverse());
            }
        }
        acc
    }
}

/// Reversing twice gives back the list, for items whose clones equal the
/// values they were cloned from.
pub proof fn reverse_twice_law<T: Clone>(a: Seq<T>, b: Seq<T>, c: Seq<T>)
    requires
        clones_are_equal::<T>(),
        is_reversal_of(b, a),
        is_reversal_of(c, b),
    ensures
        c == a,
{
    assert forall|i: int| 0 <= i < a.len() implies c[i] == a[i] by {
        let j = a.len() - 1 - i;
        assert(cloned(b[b.len() - 1 - i], c[i]));
        assert(cloned(a[a.len() - 1 - j], b[j]));
    }
    assert(c =~= a);
}


/// Items with a text form, written into a character buffer.
pub trait ItemText {
    /// The text of the item.
    spec fn spec_text(&self) -> Seq<char>;

    /// Appends the text of the item to `out`.
    fn push_text(&self, out: &mut Vec<char>)
        ensures
            final(out)@ == old(out)@ + self.spec_text(),
    ;
}

impl ItemText for i32 {
    open spec fn spec_text(&self) -> Seq<char> {
        int_dec(*self as int)
    }

    fn push_text(&self, out: &mut Vec<char>) {
        push_i128(out, *self as i128);
    }
}

impl ItemText for i64 {
    open spec fn spec_text(&self) -> Seq<char> {
        int_dec(*self as int)
    }

    fn push_text(&self, out: &mut Vec<char>) {
        push_i128(out, *self as i128);
    }
}

impl ItemText for u64 {
    open spec fn spec_text(&self) -> Seq<char> {
        int_dec(*self as int)
    }

    fn push_text(&self, out: &mut Vec<char>) {
        push_u128(out, *self as u128);
    }
}

impl ItemText for usize {
    open spec fn spec_text(&self) -> Seq<char> {
        int_dec(*self as int)
    }

    fn push_text(&self, out: &mut Vec<char>) {
        push_u128(out, *self as u128);
    }
}

/// The text of a list with items `s`: each item followed by ` -> `, then
/// `<Nil>`.
pub open spec fn list_text<T: ItemText>(s: Seq<T>) -> Seq<char>
    decreases s.len(),
{
    if s.len() == 0 {
        "<Nil>"@
    } else {
        s[0].spec_text() + " -> "@ + list_text(s.drop_first())
    }
}

impl<T: ItemText> List<T> {
    /// The text of the list, as `1 -> 2 -> <Nil>`.
    pub fn to_string(&self) -> (r: String)
        ensures
            r@ == list_text(self@),
    {
        let mut out: Vec<char> = Vec::new();
        let mut cur: &List<T> = self;
        let ghost mut done: int = 0;
        loop
            invariant_except_break
                0 <= done <= self@.len(),
                cur@ == self@.skip(done),
                out@ + list_text(cur@) == list_text(self@),
            ensures
                out@ == list_text(self@),
            decreases self@.len() - done,
        {
            match cur {
                List::Cons(head, tail) => {
                    let ghost before = out@;
                    assert(cur@ == seq![*head] + (**tail)@);
                    assert((seq![*head] + (**tail)@).drop_first() =~= (**tail)@);
                    assert(list_text(cur@) == head.spec_text() + " -> "@ + list_text((**tail)@));
                    head.push_text(&mut out);
                    push_str(&mut out, " -> ");
                    assert(out@ + list_text((**tail)@) =~= before + list_text(cur@));
                    assert(self@.skip(done + 1) =~= self@.skip(done).drop_first());
                    cur = &**tail;
                    proof {
                        done = done + 1;
                    }
                },
                List::Nil => {
                    let ghost before = out@;
                    push_str(&mut out, "<Nil>");
                    assert(out@ =~= before + list_text(cur@));
                    assert(out@ == list_text(self@));
                    break;
                },
            }
        }
        string_from_chars(&out)
    }
}

} // verus!

pub use List::Cons;
pub use List::Nil;
