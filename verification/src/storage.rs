//! The todo store: create/save/get operations over todo lists, layered on
//! a [`KvStore`].
//!
//! A list with id `n` lives at `/todos/<n>`; that path holds the encoded
//! list, the authoritative representation read back by [`Todo::get`].
//! Each item is also written at `/todos/<n>/<i>`; these per-item entries
//! are written and overwritten but never read back by any operation here —
//! a deliberate redundancy kept from the namespace design, which also
//! reserves a separate `/items` root that no operation uses.

use crate::codec::{
    decode_list, encode_item, encode_list, lemma_decode_encode_list, list_encodable,
    spec_decode_list, spec_encode_item, spec_encode_list,
};
use crate::paths::{push_decimal, spec_item_path, spec_list_path, SLASH};
use crate::store::{KvStore, StoreError};
use crate::todo::{views_of, TodoItem, TodoItemView};
use vstd::prelude::*;

verus! {

/// Failure of a todo store operation.
#[derive(Clone, Copy, Debug, PartialEq, Eq, Structural)]
pub enum TodoStorageError {
    /// An identifier could not be encoded into a path segment.
    PathError,
    /// The underlying store reported a failure.
    RuntimeError(StoreError),
    /// An in-memory record could not be encoded to bytes.
    SerializationFailed,
    /// Stored bytes could not be decoded back into a list of items.
    DeserializationFailed,
    /// The referenced list id has no path in the store.
    TodoNotFound(u64),
    /// The bootstrap step could not establish a usable root.
    NewTodosStorageFailed,
}

pub type TodoStorageResult<T> = Result<T, TodoStorageError>;

/// The fixed root under which lists live: `/todos`.
pub open spec fn todos_root() -> Seq<u8> {
    seq![SLASH, 116u8, 111u8, 100u8, 111u8, 115u8]
}

/// The fixed root reserved for items: `/items`. Declared as part of the
/// namespace design; no current operation stores anything under it.
pub open spec fn items_root() -> Seq<u8> {
    seq![SLASH, 105u8, 116u8, 101u8, 109u8, 115u8]
}

/// The `/todos` root as a path value.
pub fn todos_root_path() -> (r: Vec<u8>)
    ensures
        r@ == todos_root(),
{
    let r: Vec<u8> = vec![SLASH, 116u8, 111u8, 100u8, 111u8, 115u8];
    proof {
        assert(r@ =~= todos_root());
    }
    r
}

/// The `/items` root as a path value.
pub fn items_root_path() -> (r: Vec<u8>)
    ensures
        r@ == items_root(),
{
    let r: Vec<u8> = vec![SLASH, 105u8, 116u8, 101u8, 109u8, 115u8];
    proof {
        assert(r@ =~= items_root());
    }
    r
}

/// The store contents after the first `k` items of `vs` have been written
/// at their item paths, in index order.
pub open spec fn spec_item_writes(
    m: Map<Seq<u8>, Seq<u8>>,
    root: Seq<u8>,
    id: u64,
    vs: Seq<TodoItemView>,
    k: nat,
) -> Map<Seq<u8>, Seq<u8>>
    decreases k,
{
    if k == 0 {
        m
    } else {
        spec_item_writes(m, root, id, vs, (k - 1) as nat).insert(
            spec_item_path(root, id, (k - 1) as u64),
            spec_encode_item(vs[k - 1]),
        )
    }
}

/// The store contents after a save of `vs` at `id`: every item written at
/// its item path, then the encoded list written at the list path.
pub open spec fn spec_save(
    m: Map<Seq<u8>, Seq<u8>>,
    root: Seq<u8>,
    id: u64,
    vs: Seq<TodoItemView>,
) -> Map<Seq<u8>, Seq<u8>> {
    spec_item_writes(m, root, id, vs, vs.len()).insert(
        spec_list_path(root, id),
        spec_encode_list(vs),
    )
}

/// What a read of list `id` decodes to, assuming its list path is present.
pub open spec fn spec_get(m: Map<Seq<u8>, Seq<u8>>, root: Seq<u8>, id: u64) -> Option<
    Seq<TodoItemView>,
> {
    spec_decode_list(m[spec_list_path(root, id)])
}

/// Whether the store reports a value at `path`.
pub fn path_exists<S: KvStore>(store: &S, path: &Vec<u8>) -> (r: TodoStorageResult<bool>)
    ensures
        r matches Ok(b) && b == store.contents().contains_key(path@),
{
    Ok(store.has(path))
}

/// A handle on the todo collection: it owns the root path under which all
/// lists live, and holds no list data itself — all durable state lives in
/// the underlying store.
pub struct Todo {
    path: Vec<u8>,
}

impl Todo {
    /// The root path this handle addresses.
    pub closed spec fn root(&self) -> Seq<u8> {
        self.path@
    }

    /// The path of list `list_id`: the root, a separator, and the decimal
    /// digits of the id. A pure function of its inputs; the conversion is
    /// fallible by construction, but a decimal segment is always a valid
    /// path component, so it returns a path for every id.
    pub fn list_path(&self, list_id: u64) -> (r: TodoStorageResult<Vec<u8>>)
        ensures
            r matches Ok(p) && p@ == spec_list_path(self.root(), list_id),
    {
        let mut p = clone_path(&self.path);
        p.push(SLASH);
        push_decimal(&mut p, list_id);
        proof {
            assert(p@ =~= spec_list_path(self.root(), list_id));
        }
        Ok(p)
    }

    /// The path of item `item_id` within list `list_id`: the list path,
    /// a separator, and the decimal digits of the item id.
    pub fn item_path(&self, list_id: u64, item_id: u64) -> (r: TodoStorageResult<Vec<u8>>)
        ensures
            r matches Ok(p) && p@ == spec_item_path(self.root(), list_id, item_id),
    {
        let mut p = clone_path(&self.path);
        p.push(SLASH);
        push_decimal(&mut p, list_id);
        p.push(SLASH);
        push_decimal(&mut p, item_id);
        proof {
            assert(p@ =~= spec_item_path(self.root(), list_id, item_id));
        }
        Ok(p)
    }

    /// Saves one item into an existing list. The list must already exist:
    /// if its path is absent this fails with `TodoNotFound` and performs
    /// no write. Otherwise the encoded item is written at the item path,
    /// overwriting any prior value there.
    pub fn save_item<S: KvStore>(
        &self,
        store: &mut S,
        todo_id: u64,
        todo_item_id: u64,
        todo_item: &TodoItem,
    ) -> (r: TodoStorageResult<()>)
        ensures
            match r {
                Ok(()) => old(store).contents().contains_key(spec_list_path(self.root(), todo_id))
                    && final(store).contents() == old(store).contents().insert(
                    spec_item_path(self.root(), todo_id, todo_item_id),
                    spec_encode_item(todo_item@),
                ),
                Err(e) => match e {
                    TodoStorageError::TodoNotFound(id) => id == todo_id && !old(store).contents().contains_key(spec_list_path(self.root(), todo_id)) && final(store).contents() == old(store).contents(),
                    TodoStorageError::RuntimeError(se) => se == StoreError::WriteFailed && old(store).contents().contains_key(spec_list_path(self.root(), todo_id)) && final(store).contents() == old(store).contents(),
                    _ => false,
                },
            },
    {
        let todo_path = match self.list_path(todo_id) {
            Ok(p) => p,
            Err(e) => {
                return Err(e);
            },
        };
        let is_exists = match path_exists(store, &todo_path) {
            Ok(b) => b,
            Err(e) => {
                return Err(e);
            },
        };
        if !is_exists {
            return Err(TodoStorageError::TodoNotFound(todo_id));
        }
        let todo_item_path = match self.item_path(todo_id, todo_item_id) {
            Ok(p) => p,
            Err(e) => {
                return Err(e);
            },
        };
        let bytes = encode_item(todo_item);
        match store.write(&todo_item_path, &bytes, 0) {
            Ok(()) => Ok(()),
            Err(se) => Err(TodoStorageError::RuntimeError(se)),
        }
    }

    /// Saves a whole list at `todo_id`, creating it if it does not yet
    /// exist. Each item is written at its item path in index order (the
    /// index is the item id), then the encoded list is written at the
    /// list path, overwriting any previous snapshot. On a store failure
    /// the writes already made remain written.
    pub fn save<S: KvStore>(&self, store: &mut S, todo_id: u64, todos: &Vec<TodoItem>) -> (r:
        TodoStorageResult<()>)
        ensures
            match r {
                Ok(()) => list_encodable(views_of(todos@)) && final(store).contents() == spec_save(
                    old(store).contents(),
                    self.root(),
                    todo_id,
                    views_of(todos@),
                ),
                Err(e) => (e matches TodoStorageError::RuntimeError(se) && se
                    == StoreError::WriteFailed) && exists|k: nat|
                    k <= todos@.len() && final(store).contents() == spec_item_writes(
                        old(store).contents(),
                        self.root(),
                        todo_id,
                        views_of(todos@),
                        k,
                    ),
            },
    {
        let ghost vs = views_of(todos@);
        let ghost m0 = store.contents();
        proof {
            assert(m0 == old(store).contents());
        }
        let mut i: usize = 0;
        while i < todos.len()
            invariant
                0 <= i <= todos@.len(),
                vs == views_of(todos@),
                vs.len() == todos@.len(),
                m0 == old(store).contents(),
                store.contents() == spec_item_writes(m0, self.root(), todo_id, vs, i as nat),
            decreases todos@.len() - i,
        {
            let todo_item_path = match self.item_path(todo_id, i as u64) {
                Ok(p) => p,
                Err(e) => {
                    return Err(e);
                },
            };
            let bytes = encode_item(&todos[i]);
            proof {
                assert(vs[i as int] == todos@[i as int]@);
            }
            match store.write(&todo_item_path, &bytes, 0) {
                Ok(()) => (),
                Err(se) => {
                    proof {
                        let k = i as nat;
                        assert(k <= todos@.len() && store.contents() == spec_item_writes(
                            old(store).contents(),
                            self.root(),
                            todo_id,
                            views_of(todos@),
                            k,
                        ));
                    }
                    return Err(TodoStorageError::RuntimeError(se));
                },
            }
            i += 1;
        }
        let todo_path = match self.list_path(todo_id) {
            Ok(p) => p,
            Err(e) => {
                return Err(e);
            },
        };
        let bytes = encode_list(todos);
        match store.write(&todo_path, &bytes, 0) {
            Ok(()) => {
                proof {
                    assert(vs.len() == todos@.len());
                }
                Ok(())
            },
            Err(se) => {
                proof {
                    let k = todos@.len() as nat;
                    assert(k <= todos@.len() && store.contents() == spec_item_writes(
                        old(store).contents(),
                        self.root(),
                        todo_id,
                        views_of(todos@),
                        k,
                    ));
                }
                Err(TodoStorageError::RuntimeError(se))
            },
        }
    }

    /// Reads the list at `todo_id`. Fails with `TodoNotFound` exactly when
    /// the list path is absent, and with `DeserializationFailed` exactly
    /// when the stored bytes are not a valid list encoding; otherwise it
    /// returns the decoded items.
    pub fn get<S: KvStore>(&self, store: &S, todo_id: u64) -> (r: TodoStorageResult<Vec<TodoItem>>)
        ensures
            match r {
                Ok(items) => store.contents().contains_key(spec_list_path(self.root(), todo_id))
                    && spec_get(store.contents(), self.root(), todo_id) == Some(views_of(items@)),
                Err(e) => match e {
                    TodoStorageError::TodoNotFound(id) => id == todo_id && !store.contents(
                    ).contains_key(spec_list_path(self.root(), todo_id)),
                    TodoStorageError::DeserializationFailed => store.contents().contains_key(
                        spec_list_path(self.root(), todo_id),
                    ) && spec_get(store.contents(), self.root(), todo_id) is None,
                    _ => false,
                },
            },
    {
        let todo_path = match self.list_path(todo_id) {
            Ok(p) => p,
            Err(e) => {
                return Err(e);
            },
        };
        let is_exists = match path_exists(store, &todo_path) {
            Ok(b) => b,
            Err(e) => {
                return Err(e);
            },
        };
        if !is_exists {
            return Err(TodoStorageError::TodoNotFound(todo_id));
        }
        let size = match store.value_size(&todo_path) {
            Ok(n) => n,
            Err(_) => {
                return Err(TodoStorageError::TodoNotFound(todo_id));
            },
        };
        let bytes = match store.read(&todo_path, 0, size) {
            Ok(b) => b,
            Err(_) => {
                return Err(TodoStorageError::TodoNotFound(todo_id));
            },
        };
        proof {
            assert(bytes@ =~= store.contents()[todo_path@]);
        }
        match decode_list(&bytes) {
            Some(items) => Ok(items),
            None => Err(TodoStorageError::DeserializationFailed),
        }
    }
}

/// Idempotent bootstrap: ensures the `/todos` root exists, creating it
/// once if absent, and returns a handle rooted there. It never hands out
/// a handle whose root is absent from the store.
pub fn init_todo_storage<S: KvStore>(store: &mut S) -> (r: TodoStorageResult<Todo>)
    ensures
        match r {
            Ok(t) => t.root() == todos_root() && final(store).contents().contains_key(todos_root())
                && final(store).contents() == (if old(store).contents().contains_key(todos_root()) {
                old(store).contents()
            } else {
                old(store).contents().insert(todos_root(), Seq::<u8>::empty())
            }),
            Err(e) => e == TodoStorageError::RuntimeError(StoreError::WriteFailed) && !old(store).contents().contains_key(todos_root()) && final(store).contents() == old(store).contents(),
        },
{
    let root = todos_root_path();
    if store.has(&root) {
        return Ok(Todo { path: root });
    }
    let empty: Vec<u8> = Vec::new();
    match store.write(&root, &empty, 0) {
        Ok(()) => Ok(Todo { path: root }),
        Err(se) => Err(TodoStorageError::RuntimeError(se)),
    }
}

/// A copy of a path value.
fn clone_path(v: &Vec<u8>) -> (r: Vec<u8>)
    ensures
        r@ == v@,
{
    let mut out: Vec<u8> = Vec::new();
    let mut i: usize = 0;
    while i < v.len()
        invariant
            0 <= i <= v@.len(),
            out@ == v@.take(i as int),
        decreases v@.len() - i,
    {
        out.push(v[i]);
        proof {
            assert(v@.take(i as int).push(v@[i as int]) =~= v@.take(i as int + 1));
        }
        i += 1;
    }
    proof {
        assert(v@.take(v@.len() as int) =~= v@);
    }
    out
}

/// Round trip: saving a list of items at an id and then reading that id
/// yields exactly the saved items — same length, same order, same field
/// values — whatever the store held before.
pub proof fn lemma_save_then_get(
    m: Map<Seq<u8>, Seq<u8>>,
    root: Seq<u8>,
    id: u64,
    vs: Seq<TodoItemView>,
)
    requires
        list_encodable(vs),
    ensures
        spec_save(m, root, id, vs).contains_key(spec_list_path(root, id)),
        spec_get(spec_save(m, root, id, vs), root, id) == Some(vs),
{
    lemma_decode_encode_list(vs);
}

/// Writing items never creates any list path: item paths and list paths
/// are disjoint.
proof fn lemma_item_writes_leave_list_path_absent(
    m: Map<Seq<u8>, Seq<u8>>,
    root: Seq<u8>,
    id: u64,
    other: u64,
    vs: Seq<TodoItemView>,
    k: nat,
)
    requires
        !m.contains_key(spec_list_path(root, id)),
    ensures
        !spec_item_writes(m, root, other, vs, k).contains_key(spec_list_path(root, id)),
    decreases k,
{
    if k > 0 {
        lemma_item_writes_leave_list_path_absent(m, root, id, other, vs, (k - 1) as nat);
        crate::paths::lemma_list_item_paths_distinct(root, id, other, (k - 1) as u64);
    }
}

/// Not found: a save of a different list id never creates the path of
/// list `id`; an id never saved stays absent, so a read of it keeps
/// failing as not found and never returns a value.
pub proof fn lemma_save_other_leaves_absent(
    m: Map<Seq<u8>, Seq<u8>>,
    root: Seq<u8>,
    id: u64,
    other: u64,
    vs: Seq<TodoItemView>,
)
    requires
        !m.contains_key(spec_list_path(root, id)),
        other != id,
    ensures
        !spec_save(m, root, other, vs).contains_key(spec_list_path(root, id)),
{
    lemma_item_writes_leave_list_path_absent(m, root, id, other, vs, vs.len());
    if spec_list_path(root, other) == spec_list_path(root, id) {
        crate::paths::lemma_list_path_injective(root, other, id);
    }
}

/// Not found: the bootstrap write at the `/todos` root never creates the
/// path of any list.
pub proof fn lemma_init_leaves_absent(m: Map<Seq<u8>, Seq<u8>>, id: u64)
    requires
        !m.contains_key(spec_list_path(todos_root(), id)),
    ensures
        !m.insert(todos_root(), Seq::<u8>::empty()).contains_key(
            spec_list_path(todos_root(), id),
        ),
{
    crate::paths::lemma_dec_digits_are_digits(id as nat);
    assert(spec_list_path(todos_root(), id).len() > todos_root().len());
}

/// Overwrite: saving twice at the same id leaves exactly the second list
/// visible to a read; nothing of the first remains visible.
pub proof fn lemma_save_overwrite(
    m: Map<Seq<u8>, Seq<u8>>,
    root: Seq<u8>,
    id: u64,
    vs1: Seq<TodoItemView>,
    vs2: Seq<TodoItemView>,
)
    requires
        list_encodable(vs2),
    ensures
        spec_get(spec_save(spec_save(m, root, id, vs1), root, id, vs2), root, id) == Some(vs2),
{
    lemma_save_then_get(spec_save(m, root, id, vs1), root, id, vs2);
}

} // verus!
