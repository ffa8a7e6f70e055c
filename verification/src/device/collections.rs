//! Bounded message queues owned by the engine.

use vstd::prelude::*;

use crate::message::Message;

verus! {

/// Failure of a bounded collection operation.
#[derive(Clone, Copy, Debug, PartialEq, Eq, Structural)]
pub enum CollectionError {
    Empty,
    Full,
    NoLock,
}

/// A last-in-first-out stack of messages.
pub trait MessageStack: Sized {
    /// The stacked messages, bottom first.
    spec fn contents(&self) -> Seq<Message>;

    /// How many messages fit.
    spec fn capacity(&self) -> nat;

    /// Number of stacked messages.
    fn len(&self) -> (r: usize)
        ensures
            r == self.contents().len(),
    ;

    /// Whether the stack holds no message.
    fn is_empty(&self) -> (r: bool)
        ensures
            r == (self.contents().len() == 0),
    ;

    /// Removes and returns the most recently pushed message.
    fn pop(&mut self) -> (r: Result<Message, CollectionError>)
        ensures
            final(self).capacity() == old(self).capacity(),
            old(self).contents().len() == 0 ==> (r == Err::<Message, CollectionError>(
                CollectionError::Empty,
            ) && final(self).contents() == old(self).contents()),
            old(self).contents().len() > 0 ==> (r matches Ok(m) && m == old(self).contents().last()
                && final(self).contents() == old(self).contents().drop_last()),
    ;

    /// Pushes a message; fails with `Full` at capacity.
    fn push(&mut self, message: Message) -> (r: Result<(), CollectionError>)
        ensures
            final(self).capacity() == old(self).capacity(),
            old(self).contents().len() < old(self).capacity() ==> (r matches Ok(())
                && final(self).contents() == old(self).contents().push(message)),
            old(self).contents().len() >= old(self).capacity() ==> (r
                == Err::<(), CollectionError>(CollectionError::Full) && final(self).contents()
                == old(self).contents()),
    ;
}

/// A first-in-first-out queue of messages with a fixed capacity.
pub trait MessageQueue: Sized {
    /// The queued messages, front first.
    spec fn contents(&self) -> Seq<Message>;

    /// How many messages fit.
    spec fn capacity(&self) -> nat;

    /// Appends a message at the back; fails with `Full` at capacity.
    fn enqueue(&mut self, message: Message) -> (r: Result<(), CollectionError>)
        ensures
            final(self).capacity() == old(self).capacity(),
            old(self).contents().len() < old(self).capacity() ==> (r matches Ok(())
                && final(self).contents() == old(self).contents().push(message)),
            old(self).contents().len() >= old(self).capacity() ==> (r
                == Err::<(), CollectionError>(CollectionError::Full) && final(self).contents()
                == old(self).contents()),
    ;

    /// Removes and returns the front message; fails with `Empty` when
    /// there is none.
    fn dequeue(&mut self) -> (r: Result<Message, CollectionError>)
        ensures
            final(self).capacity() == old(self).capacity(),
            old(self).contents().len() == 0 ==> (r == Err::<Message, CollectionError>(
                CollectionError::Empty,
            ) && final(self).contents() == old(self).contents()),
            old(self).contents().len() > 0 ==> (r matches Ok(m) && m == old(self).contents()[0]
                && final(self).contents() == old(self).contents().drop_first()),
    ;

    /// Number of queued messages.
    fn len(&self) -> (r: usize)
        ensures
            r == self.contents().len(),
    ;

    /// Whether the queue holds no message.
    fn is_empty(&self) -> (r: bool)
        ensures
            r == (self.contents().len() == 0),
    ;
}

/// The engine's queue type: a vector bounded by a capacity fixed at
/// construction.
#[derive(Debug)]
pub struct BoundedQueue {
    items: Vec<Message>,
    capacity: usize,
}

impl BoundedQueue {
    #[verifier::type_invariant]
    spec fn type_inv(self) -> bool {
        self.items@.len() <= self.capacity
    }

    /// An empty queue that holds at most `capacity` messages.
    pub fn new(capacity: usize) -> (r: BoundedQueue)
        ensures
            r.contents() == Seq::<Message>::empty(),
            r.capacity() == capacity,
    {
        let r = BoundedQueue { items: Vec::new(), capacity };
        proof {
            assert(r.contents() =~= Seq::<Message>::empty());
        }
        r
    }

    /// Read access to the queued message at `index`, front first.
    pub fn get(&self, index: usize) -> (r: &Message)
        requires
            index < self.contents().len(),
        ensures
            *r == self.contents()[index as int],
    {
        &self.items[index]
    }
}

impl MessageQueue for BoundedQueue {
    closed spec fn contents(&self) -> Seq<Message> {
        self.items@
    }

    closed spec fn capacity(&self) -> nat {
        self.capacity as nat
    }

    fn enqueue(&mut self, message: Message) -> (r: Result<(), CollectionError>) {
        proof {
            use_type_invariant(&*self);
        }
        if self.items.len() < self.capacity {
            let mut items: Vec<Message> = Vec::new();
            std::mem::swap(&mut items, &mut self.items);
            items.push(message);
            self.items = items;
            Ok(())
        } else {
            Err(CollectionError::Full)
        }
    }

    fn dequeue(&mut self) -> (r: Result<Message, CollectionError>) {
        proof {
            use_type_invariant(&*self);
        }
        if self.items.len() == 0 {
            Err(CollectionError::Empty)
        } else {
            let mut items: Vec<Message> = Vec::new();
            std::mem::swap(&mut items, &mut self.items);
            let m = items.remove(0);
            self.items = items;
            proof {
                assert(self.items@ =~= old(self).contents().drop_first());
            }
            Ok(m)
        }
    }

    fn len(&self) -> (r: usize) {
        self.items.len()
    }

    fn is_empty(&self) -> (r: bool) {
        self.items.len() == 0
    }
}

/// How many messages an [`OutStack`] holds at most.
pub const OUTSTACK_CAPACITY: usize = 32;

/// A simple bounded stack of outgoing messages.
#[derive(Debug)]
pub struct OutStack {
    stack: Vec<Message>,
}

impl OutStack {
    /// The stacked messages, bottom first.
    pub closed spec fn contents(&self) -> Seq<Message> {
        self.stack@
    }

    #[verifier::type_invariant]
    spec fn type_inv(self) -> bool {
        self.stack@.len() <= OUTSTACK_CAPACITY
    }

    /// An empty stack.
    pub fn new() -> (r: OutStack)
        ensures
            r.contents() == Seq::<Message>::empty(),
    {
        let r = OutStack { stack: Vec::new() };
        proof {
            assert(r.contents() =~= Seq::<Message>::empty());
        }
        r
    }

    /// Pushes a message; the stack must not be full.
    pub fn push(&mut self, message: Message)
        requires
            old(self).contents().len() < OUTSTACK_CAPACITY,
        ensures
            final(self).contents() == old(self).contents().push(message),
    {
        proof {
            use_type_invariant(&*self);
        }
        let mut stack: Vec<Message> = Vec::new();
        std::mem::swap(&mut stack, &mut self.stack);
        stack.push(message);
        self.stack = stack;
    }

    /// Removes and returns the most recently pushed message.
    pub fn pop(&mut self) -> (r: Option<Message>)
        ensures
            old(self).contents().len() == 0 ==> (r is None && final(self).contents() == old(
                self,
            ).contents()),
            old(self).contents().len() > 0 ==> (r matches Some(m) && m == old(
                self,
            ).contents().last() && final(self).contents() == old(self).contents().drop_last()),
    {
        proof {
            use_type_invariant(&*self);
        }
        let mut stack: Vec<Message> = Vec::new();
        std::mem::swap(&mut stack, &mut self.stack);
        let r = stack.pop();
        self.stack = stack;
        r
    }
}

impl MessageStack for OutStack {
    closed spec fn contents(&self) -> Seq<Message> {
        self.stack@
    }

    closed spec fn capacity(&self) -> nat {
        OUTSTACK_CAPACITY as nat
    }

    fn len(&self) -> (r: usize) {
        self.stack.len()
    }

    fn is_empty(&self) -> (r: bool) {
        self.stack.len() == 0
    }

    fn pop(&mut self) -> (r: Result<Message, CollectionError>) {
        match OutStack::pop(self) {
            Some(m) => Ok(m),
            None => Err(CollectionError::Empty),
        }
    }

    fn push(&mut self, message: Message) -> (r: Result<(), CollectionError>) {
        proof {
            use_type_invariant(&*self);
        }
        if self.stack.len() < OUTSTACK_CAPACITY {
            OutStack::push(self, message);
            Ok(())
        } else {
            Err(CollectionError::Full)
        }
    }
}

} // verus!
