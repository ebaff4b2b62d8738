//! The item list and its layout in a storage region.
//!
//! The list is stored as the number of items, a 32-bit little-endian integer,
//! followed by the items in order. An item is its name as a length-prefixed
//! string, one byte for the completion flag, and the time it was added as a
//! 64-bit little-endian integer. The list occupies the front of the region;
//! bytes behind it are not part of it.

use crate::error::TodoError;
use crate::wire::{
    bool_bytes, le_bytes, lemma_bytes_of_parse_bool, lemma_bytes_of_parse_string,
    lemma_bytes_of_parse_u32, lemma_bytes_of_parse_u64, lemma_le_bytes_len,
    lemma_parse_bool_of_bytes, lemma_parse_string_of_bytes, lemma_parse_u32_of_bytes,
    lemma_parse_u64_of_bytes, parse_bool, parse_string, parse_u32, parse_u64, put_bool,
    put_string, put_u32, put_u64, string_bytes, string_fits, take_bool, take_string, take_u32,
    take_u64,
};
use vstd::prelude::*;

verus! {

/// One item of the list. `done` only ever goes from `false` to `true`.
#[derive(Debug, Clone, PartialEq, Eq)]
pub struct Todo {
    pub name: String,
    pub done: bool,
    pub publish_date: u64,
}

/// An item as a mathematical value.
pub struct TodoView {
    pub name: Seq<char>,
    pub done: bool,
    pub publish_date: u64,
}

impl View for Todo {
    type V = TodoView;

    open spec fn view(&self) -> TodoView {
        TodoView { name: self.name@, done: self.done, publish_date: self.publish_date }
    }
}

/// The list of items, in the order in which they were added.
#[derive(Debug, Clone, PartialEq, Eq)]
pub struct TodoAccount {
    pub todos: Vec<Todo>,
}

/// The views of a sequence of items.
pub open spec fn views(todos: Seq<Todo>) -> Seq<TodoView> {
    Seq::new(todos.len(), |i: int| todos[i]@)
}

impl View for TodoAccount {
    type V = Seq<TodoView>;

    open spec fn view(&self) -> Seq<TodoView> {
        views(self.todos@)
    }
}

/// The encoding of one item.
pub open spec fn item_bytes(item: TodoView) -> Seq<u8> {
    string_bytes(item.name) + bool_bytes(item.done) + le_bytes(item.publish_date as nat, 8)
}

/// An item at the front of `buf`, and what follows it.
pub open spec fn parse_item(buf: Seq<u8>) -> Option<(TodoView, Seq<u8>)> {
    match parse_string(buf) {
        Some((name, after_name)) => match parse_bool(after_name) {
            Some((done, after_done)) => match parse_u64(after_done) {
                Some((publish_date, rest)) => Some((TodoView { name, done, publish_date }, rest)),
                None => None,
            },
            None => None,
        },
        None => None,
    }
}

/// The encodings of the items, one after the other.
pub open spec fn items_bytes(items: Seq<TodoView>) -> Seq<u8>
    decreases items.len(),
{
    if items.len() == 0 {
        Seq::empty()
    } else {
        items_bytes(items.drop_last()) + item_bytes(items.last())
    }
}

/// `count` items at the front of `buf`, and what follows them.
pub open spec fn parse_items(buf: Seq<u8>, count: nat) -> Option<(Seq<TodoView>, Seq<u8>)>
    decreases count,
{
    if count == 0 {
        Some((Seq::empty(), buf))
    } else {
        match parse_items(buf, (count - 1) as nat) {
            Some((items, rest)) => match parse_item(rest) {
                Some((item, after)) => Some((items.push(item), after)),
                None => None,
            },
            None => None,
        }
    }
}

/// The stored form of a list: the number of items, then the items.
pub open spec fn encode_collection(items: Seq<TodoView>) -> Seq<u8> {
    le_bytes(items.len(), 4) + items_bytes(items)
}

/// The list at the front of a region, if the region starts with one.
pub open spec fn decode_collection(region: Seq<u8>) -> Option<Seq<TodoView>> {
    match parse_u32(region) {
        Some((count, rest)) => match parse_items(rest, count as nat) {
            Some((items, _)) => Some(items),
            None => None,
        },
        None => None,
    }
}

/// Whether a list has a stored form: the count and the length of each name
/// must fit their 32-bit prefixes.
pub open spec fn encodable(items: Seq<TodoView>) -> bool {
    &&& items.len() <= u32::MAX
    &&& forall|i: int| 0 <= i < items.len() ==> string_fits(#[trigger] items[i].name)
}

/// Whether a list can be stored in a region of `capacity` bytes.
pub open spec fn fits(items: Seq<TodoView>, capacity: nat) -> bool {
    encodable(items) && encode_collection(items).len() <= capacity
}

/// Reading an encoded item gives it back, whatever follows.
pub proof fn lemma_parse_item_of_bytes(item: TodoView, rest: Seq<u8>)
    requires
        string_fits(item.name),
    ensures
        parse_item(item_bytes(item) + rest) == Some((item, rest)),
{
    let date = le_bytes(item.publish_date as nat, 8);
    let after_done = date + rest;
    let after_name = bool_bytes(item.done) + after_done;
    assert(item_bytes(item) + rest =~= string_bytes(item.name) + after_name);
    lemma_parse_string_of_bytes(item.name, after_name);
    lemma_parse_bool_of_bytes(item.done, after_done);
    lemma_parse_u64_of_bytes(item.publish_date, rest);
}

/// What was read as an item is the encoding of that item, and its name has an
/// encoding.
pub proof fn lemma_bytes_of_parse_item(buf: Seq<u8>)
    ensures
        parse_item(buf) matches Some((item, rest)) ==> string_fits(item.name) && buf == item_bytes(
            item,
        ) + rest,
{
    if let Some((item, rest)) = parse_item(buf) {
        let after_name = parse_string(buf).unwrap().1;
        let after_done = parse_bool(after_name).unwrap().1;
        lemma_bytes_of_parse_string(buf);
        lemma_bytes_of_parse_bool(after_name);
        lemma_bytes_of_parse_u64(after_done);
        assert(buf =~= item_bytes(item) + rest);
    }
}

/// Reading as many items as were encoded gives them back, whatever follows.
pub proof fn lemma_parse_items_of_bytes(items: Seq<TodoView>, rest: Seq<u8>)
    requires
        forall|i: int| 0 <= i < items.len() ==> string_fits(#[trigger] items[i].name),
    ensures
        parse_items(items_bytes(items) + rest, items.len()) == Some((items, rest)),
    decreases items.len(),
{
    if items.len() > 0 {
        let front = items.drop_last();
        let last = items.last();
        let tail = item_bytes(last) + rest;
        assert(items_bytes(items) + rest =~= items_bytes(front) + tail);
        lemma_parse_items_of_bytes(front, tail);
        lemma_parse_item_of_bytes(last, rest);
        assert(front.push(last) =~= items);
    }
}

/// What was read as `count` items is the encoding of those items, there are
/// `count` of them, and each name has an encoding.
pub proof fn lemma_bytes_of_parse_items(buf: Seq<u8>, count: nat)
    ensures
        parse_items(buf, count) matches Some((items, rest)) ==> {
            &&& items.len() == count
            &&& forall|i: int| 0 <= i < items.len() ==> string_fits(#[trigger] items[i].name)
            &&& buf == items_bytes(items) + rest
        },
    decreases count,
{
    if count == 0 {
        assert(buf =~= items_bytes(Seq::empty()) + buf);
    } else if let Some((items, rest)) = parse_items(buf, count) {
        let (front, middle) = parse_items(buf, (count - 1) as nat).unwrap();
        let (last, after) = parse_item(middle).unwrap();
        lemma_bytes_of_parse_items(buf, (count - 1) as nat);
        lemma_bytes_of_parse_item(middle);
        assert(items.drop_last() =~= front);
        assert(buf =~= items_bytes(items) + rest);
    }
}

/// Once reading items has failed, reading more of them fails too.
pub proof fn lemma_parse_items_fails_on(buf: Seq<u8>, fewer: nat, count: nat)
    requires
        fewer <= count,
        parse_items(buf, fewer) is None,
    ensures
        parse_items(buf, count) is None,
    decreases count,
{
    if fewer < count {
        lemma_parse_items_fails_on(buf, fewer, (count - 1) as nat);
    }
}

/// Decoding the stored form of a list gives the list back, whatever bytes
/// follow it in the region.
pub proof fn lemma_decode_of_encode(items: Seq<TodoView>, padding: Seq<u8>)
    requires
        encodable(items),
    ensures
        decode_collection(encode_collection(items) + padding) == Some(items),
{
    let body = items_bytes(items) + padding;
    assert(encode_collection(items) + padding =~= le_bytes(items.len(), 4) + body);
    lemma_parse_u32_of_bytes(items.len() as u32, body);
    lemma_parse_items_of_bytes(items, padding);
}

/// A region that decodes starts with the stored form of the list it decodes
/// to: encoding what was decoded reproduces the front of the region byte for
/// byte.
pub proof fn lemma_encode_of_decode(region: Seq<u8>)
    ensures
        decode_collection(region) matches Some(items) ==> {
            &&& fits(items, region.len())
            &&& region.take(encode_collection(items).len() as int) == encode_collection(items)
        },
{
    if let Some(items) = decode_collection(region) {
        let (count, body) = parse_u32(region).unwrap();
        let rest = parse_items(body, count as nat).unwrap().1;
        lemma_bytes_of_parse_u32(region);
        lemma_bytes_of_parse_items(body, count as nat);
        assert(region =~= encode_collection(items) + rest);
        assert(region.take(encode_collection(items).len() as int) =~= encode_collection(items));
    }
}

/// The length of an item's encoding: 13 bytes and the UTF-8 form of the name.
pub proof fn lemma_item_bytes_len(item: TodoView)
    ensures
        item_bytes(item).len() == 13 + vstd::utf8::encode_utf8(item.name).len(),
{
    lemma_le_bytes_len(vstd::utf8::encode_utf8(item.name).len(), 4);
    lemma_le_bytes_len(item.publish_date as nat, 8);
}

/// Encoding one more item appends its bytes.
pub proof fn lemma_items_bytes_push(items: Seq<TodoView>, item: TodoView)
    ensures
        items_bytes(items.push(item)) == items_bytes(items) + item_bytes(item),
{
    assert(items.push(item).drop_last() =~= items);
}

/// The encoding of the first `k` items is no longer than that of all.
pub proof fn lemma_items_bytes_prefix_len(items: Seq<TodoView>, k: int)
    requires
        0 <= k <= items.len(),
    ensures
        items_bytes(items.take(k)).len() <= items_bytes(items).len(),
    decreases items.len(),
{
    if k == items.len() {
        assert(items.take(k) =~= items);
    } else {
        assert(items.drop_last().take(k) =~= items.take(k));
        lemma_items_bytes_prefix_len(items.drop_last(), k);
    }
}

/// Whether item `i` is the first of the list that bears `name`.
pub open spec fn is_first_named(items: Seq<TodoView>, name: Seq<char>, i: int) -> bool {
    &&& 0 <= i < items.len()
    &&& items[i].name == name
    &&& forall|k: int| 0 <= k < i ==> (#[trigger] items[k]).name != name
}

/// Whether some item of the list bears `name`.
pub open spec fn has_named(items: Seq<TodoView>, name: Seq<char>) -> bool {
    exists|i: int| 0 <= i < items.len() && (#[trigger] items[i]).name == name
}

/// The position of the first item that bears `name`, where there is one.
pub open spec fn first_named(items: Seq<TodoView>, name: Seq<char>) -> int {
    choose|i: int| is_first_named(items, name, i)
}

/// An item with its flag set; name and time stay.
pub open spec fn marked(item: TodoView) -> TodoView {
    TodoView { name: item.name, done: true, publish_date: item.publish_date }
}

/// A new, pending item.
pub open spec fn pending(name: Seq<char>, now: u64) -> TodoView {
    TodoView { name, done: false, publish_date: now }
}

/// What marking `name` as done makes of a list: the first item of that name
/// gets its flag set and nothing else changes. It is refused where no item
/// bears the name, and where the first that does is done already.
pub open spec fn mark_done_result(items: Seq<TodoView>, name: Seq<char>) -> Result<
    Seq<TodoView>,
    TodoError,
> {
    if !has_named(items, name) {
        Err(TodoError::ItemNotFound)
    } else {
        let i = first_named(items, name);
        if items[i].done {
            Err(TodoError::AlreadyDone)
        } else {
            Ok(items.update(i, marked(items[i])))
        }
    }
}

/// No two positions are both the first of a name, so a position that is the
/// first is the one that `first_named` gives.
pub proof fn lemma_first_named_unique(items: Seq<TodoView>, name: Seq<char>, i: int)
    requires
        is_first_named(items, name, i),
    ensures
        has_named(items, name),
        first_named(items, name) == i,
{
    let j = first_named(items, name);
    assert(is_first_named(items, name, j));
    if j < i {
        assert(items[j].name != name);
    } else if i < j {
        assert(items[i].name != name);
    }
}

/// Among the items that bear a name there is a first.
pub proof fn lemma_first_named_exists(items: Seq<TodoView>, name: Seq<char>)
    requires
        has_named(items, name),
    ensures
        is_first_named(items, name, first_named(items, name)),
{
    let witness = choose|i: int| 0 <= i < items.len() && (#[trigger] items[i]).name == name;
    lemma_least_named(items, name, witness);
}

/// Below any position that bears the name lies one that is the first.
proof fn lemma_least_named(items: Seq<TodoView>, name: Seq<char>, upto: int)
    requires
        0 <= upto < items.len(),
        items[upto].name == name,
    ensures
        exists|i: int| is_first_named(items, name, i),
    decreases upto,
{
    if exists|k: int| 0 <= k < upto && (#[trigger] items[k]).name == name {
        let k = choose|k: int| 0 <= k < upto && (#[trigger] items[k]).name == name;
        lemma_least_named(items, name, k);
    } else {
        assert(is_first_named(items, name, upto));
    }
}

/// Where the first item that bears a name is pending, marking the name sets
/// that item's flag. Its name and time, and every other item, stay as they
/// were.
pub proof fn lemma_mark_done_pending(items: Seq<TodoView>, name: Seq<char>, i: int)
    requires
        is_first_named(items, name, i),
        !items[i].done,
    ensures
        mark_done_result(items, name) == Ok::<Seq<TodoView>, TodoError>(
            items.update(i, marked(items[i])),
        ),
        items.update(i, marked(items[i])).len() == items.len(),
        items.update(i, marked(items[i]))[i] == (TodoView {
            name,
            done: true,
            publish_date: items[i].publish_date,
        }),
        forall|k: int|
            0 <= k < items.len() && k != i ==> #[trigger] items.update(i, marked(items[i]))[k]
                == items[k],
{
    lemma_first_named_unique(items, name, i);
}

/// Where no item bears a name, marking the name is refused as
/// `ItemNotFound`.
pub proof fn lemma_mark_done_absent(items: Seq<TodoView>, name: Seq<char>)
    requires
        forall|k: int| 0 <= k < items.len() ==> (#[trigger] items[k]).name != name,
    ensures
        mark_done_result(items, name) == Err::<Seq<TodoView>, TodoError>(TodoError::ItemNotFound),
{
}

/// Where the first item that bears a name is done, marking the name is
/// refused as `AlreadyDone`, whether or not a later item of that name is
/// still pending.
pub proof fn lemma_mark_done_already(items: Seq<TodoView>, name: Seq<char>, i: int)
    requires
        is_first_named(items, name, i),
        items[i].done,
    ensures
        mark_done_result(items, name) == Err::<Seq<TodoView>, TodoError>(TodoError::AlreadyDone),
{
    lemma_first_named_unique(items, name, i);
}

/// Marking never clears a flag, and changes no name, no time and not the
/// number of items.
pub proof fn lemma_mark_done_keeps(items: Seq<TodoView>, name: Seq<char>)
    ensures
        mark_done_result(items, name) matches Ok(after) ==> {
            &&& after.len() == items.len()
            &&& forall|k: int|
                0 <= k < items.len() ==> {
                    &&& (#[trigger] after[k]).name == items[k].name
                    &&& after[k].publish_date == items[k].publish_date
                    &&& items[k].done ==> after[k].done
                }
        },
{
    if has_named(items, name) {
        lemma_first_named_exists(items, name);
    }
}

/// Marking changes neither the number of items nor the length of the stored
/// form, and a list that had a stored form still has one.
pub proof fn lemma_marked_same_size(items: Seq<TodoView>, i: int)
    requires
        0 <= i < items.len(),
    ensures
        encode_collection(items.update(i, marked(items[i]))).len() == encode_collection(
            items,
        ).len(),
        encodable(items) ==> encodable(items.update(i, marked(items[i]))),
{
    let updated = items.update(i, marked(items[i]));
    lemma_items_bytes_marked(items, i);
    lemma_le_bytes_len(items.len(), 4);
    if encodable(items) {
        assert forall|k: int| 0 <= k < updated.len() implies string_fits(
            #[trigger] updated[k].name,
        ) by {
            assert(string_fits(items[k].name));
        }
    }
}

/// Marking an item leaves the length of the items' encoding as it was.
proof fn lemma_items_bytes_marked(items: Seq<TodoView>, i: int)
    requires
        0 <= i < items.len(),
    ensures
        items_bytes(items.update(i, marked(items[i]))).len() == items_bytes(items).len(),
    decreases items.len(),
{
    let updated = items.update(i, marked(items[i]));
    lemma_item_bytes_len(items.last());
    lemma_item_bytes_len(updated.last());
    if i == items.len() - 1 {
        assert(updated.drop_last() =~= items.drop_last());
    } else {
        assert(updated.drop_last() =~= items.drop_last().update(i, marked(items[i])));
        lemma_items_bytes_marked(items.drop_last(), i);
    }
}

impl TodoAccount {
    /// The empty list.
    pub fn new() -> (account: TodoAccount)
        ensures
            account@ == Seq::<TodoView>::empty(),
    {
        let account = TodoAccount { todos: Vec::new() };
        proof {
            assert(account@ =~= Seq::<TodoView>::empty());
        }
        account
    }

    /// Reads the list at the front of a region.
    ///
    /// Succeeds exactly where the region starts with a well-formed list, and
    /// then returns that list; bytes behind it are not looked at. Any other
    /// region is `CorruptState`.
    pub fn decode(region: &[u8]) -> (r: Result<TodoAccount, TodoError>)
        ensures
            match r {
                Ok(account) => decode_collection(region@) == Some(account@),
                Err(e) => e == TodoError::CorruptState && decode_collection(region@) is None,
            },
    {
        let (count, body) = match take_u32(region) {
            Some(found) => found,
            None => {
                return Err(TodoError::CorruptState);
            },
        };
        let mut rest: &[u8] = body;
        let mut todos: Vec<Todo> = Vec::new();
        let mut i: u32 = 0;
        proof {
            assert(views(todos@) =~= Seq::<TodoView>::empty());
        }
        while i < count
            invariant
                i <= count,
                parse_u32(region@) == Some((count, body@)),
                parse_items(body@, i as nat) == Some((views(todos@), rest@)),
            decreases count - i,
        {
            let read = Self::take_item(rest);
            match read {
                Some((todo, after)) => {
                    proof {
                        assert(views(todos@.push(todo)) =~= views(todos@).push(todo@));
                    }
                    todos.push(todo);
                    rest = after;
                    i = i + 1;
                },
                None => {
                    proof {
                        assert(parse_items(body@, (i + 1) as nat) is None);
                        lemma_parse_items_fails_on(body@, (i + 1) as nat, count as nat);
                    }
                    return Err(TodoError::CorruptState);
                },
            }
        }
        Ok(TodoAccount { todos })
    }

    /// Reads one item off the front of `buf`.
    fn take_item<'a>(buf: &'a [u8]) -> (r: Option<(Todo, &'a [u8])>)
        ensures
            match r {
                Some((todo, rest)) => parse_item(buf@) == Some((todo@, rest@)),
                None => parse_item(buf@) is None,
            },
    {
        let (name, after_name) = match take_string(buf) {
            Some(found) => found,
            None => {
                return None;
            },
        };
        let (done, after_done) = match take_bool(after_name) {
            Some(found) => found,
            None => {
                return None;
            },
        };
        let (publish_date, rest) = match take_u64(after_done) {
            Some(found) => found,
            None => {
                return None;
            },
        };
        Some((Todo { name, done, publish_date }, rest))
    }

    /// Writes the stored form of the list, unless it would be longer than
    /// `capacity` bytes.
    ///
    /// Succeeds exactly where the list has a stored form of at most
    /// `capacity` bytes, and then returns it. Otherwise the result is
    /// `CapacityExceeded`.
    pub fn encode(&self, capacity: usize) -> (r: Result<Vec<u8>, TodoError>)
        ensures
            match r {
                Ok(bytes) => fits(self@, capacity as nat) && bytes@ == encode_collection(self@),
                Err(e) => e == TodoError::CapacityExceeded && !fits(self@, capacity as nat),
            },
    {
        let n: usize = self.todos.len();
        proof {
            lemma_le_bytes_len(self@.len(), 4);
        }
        if n > u32::MAX as usize || capacity < 4 {
            return Err(TodoError::CapacityExceeded);
        }
        let mut out: Vec<u8> = Vec::new();
        put_u32(&mut out, n as u32);
        let mut i: usize = 0;
        proof {
            assert(self@.take(0) =~= Seq::<TodoView>::empty());
            assert(out@ =~= le_bytes(n as nat, 4) + items_bytes(self@.take(0)));
        }
        while i < n
            invariant
                i <= n,
                n == self.todos@.len(),
                n == self@.len(),
                out@ == le_bytes(n as nat, 4) + items_bytes(self@.take(i as int)),
                out@.len() <= capacity,
                forall|k: int| 0 <= k < i ==> string_fits(#[trigger] self@[k].name),
            decreases n - i,
        {
            let todo = &self.todos[i];
            let name_len: usize = todo.name.as_str().as_bytes().len();
            let room: usize = capacity - out.len();
            proof {
                assert(self@[i as int] == todo@);
                assert(self@.take(i + 1) =~= self@.take(i as int).push(todo@));
                lemma_items_bytes_push(self@.take(i as int), todo@);
                lemma_item_bytes_len(todo@);
                lemma_items_bytes_prefix_len(self@, i + 1);
                lemma_le_bytes_len(n as nat, 4);
            }
            if room < 13 || name_len > room - 13 {
                return Err(TodoError::CapacityExceeded);
            }
            if !put_string(&mut out, todo.name.as_str()) {
                return Err(TodoError::CapacityExceeded);
            }
            put_bool(&mut out, todo.done);
            put_u64(&mut out, todo.publish_date);
            proof {
                assert(out@ =~= le_bytes(n as nat, 4) + items_bytes(self@.take(i + 1)));
            }
            i = i + 1;
        }
        proof {
            assert(self@.take(n as int) =~= self@);
        }
        Ok(out)
    }

    /// Appends a new item, pending and stamped with `now`. Names are not
    /// checked against those already there.
    pub fn append(&mut self, name: String, now: u64)
        ensures
            final(self)@ == old(self)@.push(pending(name@, now)),
    {
        let todo = Todo { name, done: false, publish_date: now };
        proof {
            assert(views(self.todos@.push(todo)) =~= views(self.todos@).push(todo@));
        }
        self.todos.push(todo);
    }

    /// Marks the first item that bears `name` as done.
    ///
    /// The list afterwards is what `mark_done_result` says; where that is an
    /// error the list is unchanged and the error is returned.
    pub fn mark_done(&mut self, name: &String) -> (r: Result<(), TodoError>)
        ensures
            match r {
                Ok(()) => mark_done_result(old(self)@, name@) == Ok::<Seq<TodoView>, TodoError>(
                    final(self)@,
                ),
                Err(e) => mark_done_result(old(self)@, name@) == Err::<Seq<TodoView>, TodoError>(e)
                    && final(self)@ == old(self)@,
            },
    {
        let n: usize = self.todos.len();
        let mut i: usize = 0;
        while i < n
            invariant
                i <= n,
                n == self.todos@.len(),
                *self == *old(self),
                forall|k: int| 0 <= k < i ==> (#[trigger] self@[k]).name != name@,
            decreases n - i,
        {
            if self.todos[i].name == *name {
                proof {
                    assert(self@[i as int].name == name@);
                    lemma_first_named_unique(self@, name@, i as int);
                }
                if self.todos[i].done {
                    return Err(TodoError::AlreadyDone);
                }
                self.todos[i].done = true;
                proof {
                    assert(self@ =~= old(self)@.update(i as int, marked(old(self)@[i as int])));
                }
                return Ok(());
            }
            i = i + 1;
        }
        proof {
            if has_named(self@, name@) {
                let k = choose|k: int| 0 <= k < self@.len() && (#[trigger] self@[k]).name == name@;
                assert(false);
            }
        }
        Err(TodoError::ItemNotFound)
    }
}

} // verus!
