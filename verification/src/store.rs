//! The data-access core: credential rows and task rows, with row-level
//! ownership enforced by construction. Every task operation takes the
//! caller's authenticated user id and reads or writes only that user's rows.
use crate::username::ValidUsername;
use vstd::prelude::*;

verus! {

/// Whether `password_auth::verify_password` accepts `password` against the
/// PHC hash string `hash`. Acceptance is a function of the two texts alone:
/// the salt and parameters live inside the hash string.
pub uninterp spec fn password_matches(password: Seq<char>, hash: Seq<char>) -> bool;

/// The longest password accepted for hashing, in characters. Argon2 refuses
/// passwords over 2^32 - 1 bytes; a character takes at most four bytes, so
/// this bound keeps the hashing call from being refused (and so from
/// panicking inside password_auth::generate_hash).
pub const MAX_PASSWORD_CHARS: usize = 0x3FFFFFFF;

/// Relies on password_auth::generate_hash: the salted PHC hash it returns is
/// accepted by password_auth::verify_password for the same password. The
/// length bound keeps the input below argon2's byte limit, under which the
/// hashing step cannot fail.
#[verifier::external_body]
fn hash_password(password: &str) -> (r: String)
    requires
        password@.len() <= MAX_PASSWORD_CHARS,
    ensures
        password_matches(password@, r@),
{
    password_auth::generate_hash(password)
}

/// Relies on password_auth::verify_password: it accepts or rejects as a
/// function of the password and the PHC hash string alone.
#[verifier::external_body]
fn check_password(password: &str, hash: &str) -> (r: bool)
    ensures
        r == password_matches(password@, hash@),
{
    password_auth::verify_password(password, hash).is_ok()
}

/// The view of each element of a sequence, in order.
pub open spec fn views_of<T: View>(s: Seq<T>) -> Seq<<T as View>::V> {
    Seq::new(s.len(), |i: int| s[i]@)
}

/// A stored credential row: a normalized username and the hash of the
/// password, never the plaintext.
pub struct UserRecord {
    pub id: i32,
    pub username: String,
    pub password_hash: String,
}

/// The mathematical content of a credential row.
pub struct UserView {
    pub id: int,
    pub username: Seq<char>,
    pub password_hash: Seq<char>,
}

impl View for UserRecord {
    type V = UserView;

    open spec fn view(&self) -> UserView {
        UserView { id: self.id as int, username: self.username@, password_hash: self.password_hash@ }
    }
}

/// A stored task row, owned by exactly one user.
pub struct TaskRecord {
    pub id: i32,
    pub title: String,
    pub completed: bool,
    pub user_id: i32,
}

/// The mathematical content of a task row.
pub struct TaskView {
    pub id: int,
    pub title: Seq<char>,
    pub completed: bool,
    pub user_id: int,
}

impl View for TaskRecord {
    type V = TaskView;

    open spec fn view(&self) -> TaskView {
        TaskView {
            id: self.id as int,
            title: self.title@,
            completed: self.completed,
            user_id: self.user_id as int,
        }
    }
}

/// A task as returned to its owner: the owner column is implicit.
#[derive(Clone, Debug, PartialEq, Eq)]
pub struct Todo {
    pub id: i32,
    pub title: String,
    pub completed: bool,
}

/// The mathematical content of a returned task.
pub struct TodoView {
    pub id: int,
    pub title: Seq<char>,
    pub completed: bool,
}

impl View for Todo {
    type V = TodoView;

    open spec fn view(&self) -> TodoView {
        TodoView { id: self.id as int, title: self.title@, completed: self.completed }
    }
}

/// How a task row looks to its owner.
pub open spec fn to_todo(t: TaskView) -> TodoView {
    TodoView { id: t.id, title: t.title, completed: t.completed }
}

/// The list a user sees: exactly the tasks owned by `user_id`, in row order.
pub open spec fn todo_list(tasks: Seq<TaskView>, user_id: int) -> Seq<TodoView>
    decreases tasks.len(),
{
    if tasks.len() == 0 {
        Seq::empty()
    } else {
        let rest = todo_list(tasks.drop_last(), user_id);
        if tasks.last().user_id == user_id {
            rest.push(to_todo(tasks.last()))
        } else {
            rest
        }
    }
}

/// One row after an update request: changed only if it is the addressed row
/// and the caller owns it.
pub open spec fn update_task(
    t: TaskView,
    user_id: int,
    id: int,
    title: Seq<char>,
    completed: bool,
) -> TaskView {
    if t.id == id && t.user_id == user_id {
        TaskView { id: t.id, title: title, completed: completed, user_id: t.user_id }
    } else {
        t
    }
}

/// The rows after an update request: the addressed row is rewritten only if
/// the caller owns it; every other row is untouched.
pub open spec fn updated_tasks(
    tasks: Seq<TaskView>,
    user_id: int,
    id: int,
    title: Seq<char>,
    completed: bool,
) -> Seq<TaskView>
    decreases tasks.len(),
{
    if tasks.len() == 0 {
        Seq::empty()
    } else {
        updated_tasks(tasks.drop_last(), user_id, id, title, completed).push(
            update_task(tasks.last(), user_id, id, title, completed),
        )
    }
}

/// The rows after a delete request: the addressed row disappears only if the
/// caller owns it; every other row stays.
pub open spec fn remaining_tasks(tasks: Seq<TaskView>, user_id: int, id: int) -> Seq<TaskView>
    decreases tasks.len(),
{
    if tasks.len() == 0 {
        Seq::empty()
    } else {
        let rest = remaining_tasks(tasks.drop_last(), user_id, id);
        if tasks.last().id == id && tasks.last().user_id == user_id {
            rest
        } else {
            rest.push(tasks.last())
        }
    }
}

/// Whether some stored user carries this (normalized) username.
pub open spec fn has_username(users: Seq<UserView>, name: Seq<char>) -> bool {
    exists|i: int| 0 <= i < users.len() && users[i].username == name
}

/// What authentication yields: look the username up; if a row carries it,
/// the row's id when the password verifies against the stored hash, nothing
/// otherwise; nothing when no row carries it.
pub open spec fn auth_lookup(users: Seq<UserView>, name: Seq<char>, password: Seq<char>) -> Option<
    int,
>
    decreases users.len(),
{
    if users.len() == 0 {
        None
    } else if users[0].username == name {
        if password_matches(password, users[0].password_hash) {
            Some(users[0].id)
        } else {
            None
        }
    } else {
        auth_lookup(users.drop_first(), name, password)
    }
}

/// Why a signup is refused.
#[derive(Clone, Copy, Debug, PartialEq, Eq)]
pub enum StoreError {
    /// The normalized username is already taken.
    DuplicateUser,
}

/// The persistent state: credential rows and task rows, with fresh-id
/// counters. Rows are kept in ascending id order and usernames are unique.
pub struct Store {
    pub users: Vec<UserRecord>,
    pub next_user_id: i32,
    pub todos: Vec<TaskRecord>,
    pub next_todo_id: i32,
}

impl Store {
    pub open spec fn users_view(&self) -> Seq<UserView> {
        views_of(self.users@)
    }

    pub open spec fn tasks_view(&self) -> Seq<TaskView> {
        views_of(self.todos@)
    }

    /// Well-formedness: ids are positive, below the fresh-id counters and
    /// strictly ascending; usernames are pairwise distinct.
    pub open spec fn wf(&self) -> bool {
        &&& 1 <= self.next_user_id
        &&& 1 <= self.next_todo_id
        &&& (forall|i: int|
            0 <= i < self.users_view().len() ==> 1 <= #[trigger] self.users_view()[i].id
                < self.next_user_id)
        &&& (forall|i: int, j: int|
            0 <= i < j < self.users_view().len() ==> #[trigger] self.users_view()[i].username
                != #[trigger] self.users_view()[j].username)
        &&& (forall|i: int|
            0 <= i < self.tasks_view().len() ==> 1 <= #[trigger] self.tasks_view()[i].id
                < self.next_todo_id)
        &&& (forall|i: int, j: int|
            0 <= i < j < self.tasks_view().len() ==> #[trigger] self.tasks_view()[i].id
                < #[trigger] self.tasks_view()[j].id)
    }

    /// An empty store.
    pub fn new() -> (r: Store)
        ensures
            r.wf(),
            r.users_view().len() == 0,
            r.tasks_view().len() == 0,
            r.next_user_id == 1,
            r.next_todo_id == 1,
    {
        Store { users: Vec::new(), next_user_id: 1, todos: Vec::new(), next_todo_id: 1 }
    }

    /// Signup: hashes the password and inserts the row, returning the fresh
    /// id. Succeeds exactly when the normalized username is not yet taken.
    pub fn create_user(&mut self, username: ValidUsername, password: String) -> (r: Result<
        i32,
        StoreError,
    >)
        requires
            old(self).wf(),
            old(self).next_user_id < i32::MAX,
            password@.len() <= MAX_PASSWORD_CHARS,
        ensures
            final(self).wf(),
            final(self).tasks_view() == old(self).tasks_view(),
            final(self).next_todo_id == old(self).next_todo_id,
            match r {
                Ok(id) => {
                    &&& !has_username(old(self).users_view(), username@)
                    &&& id == old(self).next_user_id
                    &&& final(self).next_user_id == old(self).next_user_id + 1
                    &&& exists|h: Seq<char>|
                        #[trigger] password_matches(password@, h) && final(self).users_view()
                            == old(self).users_view().push(
                            (UserView { id: id as int, username: username@, password_hash: h }),
                        )
                },
                Err(e) => {
                    &&& e == StoreError::DuplicateUser
                    &&& has_username(old(self).users_view(), username@)
                    &&& *final(self) == *old(self)
                },
            },
    {
        let n: usize = self.users.len();
        let mut i: usize = 0;
        while i < n
            invariant
                n == self.users@.len(),
                i <= n,
                *self == *old(self),
                old(self).wf(),
                forall|j: int| 0 <= j < i ==> #[trigger] self.users_view()[j].username != username@,
            decreases n - i,
        {
            if self.users[i].username == username.0 {
                proof {
                    assert(self.users_view()[i as int].username == username@);
                }
                return Err(StoreError::DuplicateUser);
            }
            i += 1;
        }
        let id = self.next_user_id;
        let hash = hash_password(password.as_str());
        let ghost h = hash@;
        let ghost before = self.users_view();
        self.users.push(UserRecord { id, username: username.0, password_hash: hash });
        self.next_user_id = id + 1;
        proof {
            assert(!has_username(before, username@));
            assert(self.users_view() =~= before.push(
                (UserView { id: id as int, username: username@, password_hash: h }),
            ));
            assert(password_matches(password@, h));
            let uv = self.users_view();
            assert forall|a: int, b: int|
                0 <= a < b < uv.len() implies #[trigger] uv[a].username != #[trigger] uv[b].username by {
                if b == uv.len() - 1 {
                    assert(uv[a] == before[a]);
                    assert(before[a].username != username@);
                } else {
                    assert(uv[a] == before[a] && uv[b] == before[b]);
                }
            }
            assert forall|a: int| 0 <= a < uv.len() implies 1 <= #[trigger] uv[a].id
                < self.next_user_id by {
                if a < uv.len() - 1 {
                    assert(uv[a] == before[a]);
                    assert(1 <= before[a].id < id);
                }
            }
            assert(1 <= self.next_user_id);
            assert(1 <= self.next_todo_id);
            assert(self.tasks_view() == old(self).tasks_view());
            assert(forall|a: int, b: int|
                0 <= a < b < self.users_view().len() ==> #[trigger] self.users_view()[a].username
                    != #[trigger] self.users_view()[b].username);
            assert(forall|a: int|
                0 <= a < self.users_view().len() ==> 1 <= #[trigger] self.users_view()[a].id
                    < self.next_user_id);
            assert(forall|a: int|
                0 <= a < self.tasks_view().len() ==> 1 <= #[trigger] self.tasks_view()[a].id
                    < self.next_todo_id);
            assert(forall|a: int, b: int|
                0 <= a < b < self.tasks_view().len() ==> #[trigger] self.tasks_view()[a].id
                    < #[trigger] self.tasks_view()[b].id);
            assert(self.wf());
        }
        Ok(id)
    }

    /// Login: looks the normalized username up and verifies the password
    /// against the stored hash. Yields the user's id exactly when both match;
    /// an unknown username and a wrong password yield the one same "no
    /// match" answer.
    pub fn get_authenticated_user_id(&self, username: ValidUsername, password: String) -> (r:
        Option<i32>)
        ensures
            match r {
                Some(id) => auth_lookup(self.users_view(), username@, password@) == Some(id as int),
                None => auth_lookup(self.users_view(), username@, password@) is None,
            },
    {
        let n: usize = self.users.len();
        let mut i: usize = 0;
        proof {
            assert(self.users_view().subrange(0, n as int) =~= self.users_view());
        }
        while i < n
            invariant
                n == self.users@.len(),
                i <= n,
                auth_lookup(self.users_view(), username@, password@) == auth_lookup(
                    self.users_view().subrange(i as int, n as int),
                    username@,
                    password@,
                ),
            decreases n - i,
        {
            proof {
                let s = self.users_view().subrange(i as int, n as int);
                assert(s[0] == self.users_view()[i as int]);
                assert(s.drop_first() =~= self.users_view().subrange(i + 1, n as int));
            }
            if self.users[i].username == username.0 {
                if check_password(password.as_str(), self.users[i].password_hash.as_str()) {
                    return Some(self.users[i].id);
                } else {
                    return None;
                }
            }
            i += 1;
        }
        proof {
            assert(self.users_view().subrange(n as int, n as int).len() == 0);
        }
        None
    }

    /// All tasks owned by `user_id`, in ascending id order.
    pub fn get_todos(&self, user_id: i32) -> (r: Vec<Todo>)
        ensures
            views_of(r@) == todo_list(self.tasks_view(), user_id as int),
    {
        let n: usize = self.todos.len();
        let mut out: Vec<Todo> = Vec::new();
        let mut i: usize = 0;
        while i < n
            invariant
                n == self.todos@.len(),
                i <= n,
                views_of(out@) == todo_list(self.tasks_view().subrange(0, i as int), user_id as int),
            decreases n - i,
        {
            let ghost p = self.tasks_view().subrange(0, i as int);
            let ghost q = self.tasks_view().subrange(0, i + 1);
            proof {
                assert(q =~= p.push(self.tasks_view()[i as int]));
                assert(q.drop_last() =~= p);
            }
            let t = &self.todos[i];
            if t.user_id == user_id {
                let ghost outv = views_of(out@);
                out.push(Todo { id: t.id, title: t.title.clone(), completed: t.completed });
                proof {
                    assert(views_of(out@) =~= outv.push(to_todo(self.tasks_view()[i as int])));
                }
            }
            i += 1;
        }
        proof {
            assert(self.tasks_view().subrange(0, n as int) =~= self.tasks_view());
        }
        out
    }

    /// Inserts a fresh task for `user_id`, not yet completed, and returns
    /// that user's full list.
    pub fn add_todo_and_return_all(&mut self, user_id: i32, title: String) -> (r: Vec<Todo>)
        requires
            old(self).wf(),
            old(self).next_todo_id < i32::MAX,
        ensures
            final(self).wf(),
            final(self).users_view() == old(self).users_view(),
            final(self).next_user_id == old(self).next_user_id,
            final(self).next_todo_id == old(self).next_todo_id + 1,
            final(self).tasks_view() == old(self).tasks_view().push(
                (TaskView {
                    id: old(self).next_todo_id as int,
                    title: title@,
                    completed: false,
                    user_id: user_id as int,
                }),
            ),
            views_of(r@) == todo_list(final(self).tasks_view(), user_id as int),
    {
        let id = self.next_todo_id;
        let ghost before = self.tasks_view();
        let ghost tv = title@;
        self.todos.push(TaskRecord { id, title, completed: false, user_id });
        self.next_todo_id = id + 1;
        proof {
            assert(self.tasks_view() =~= before.push(
                (TaskView { id: id as int, title: tv, completed: false, user_id: user_id as int }),
            ));
            let tv2 = self.tasks_view();
            assert forall|a: int, b: int| 0 <= a < b < tv2.len() implies #[trigger] tv2[a].id
                < #[trigger] tv2[b].id by {
                if b == tv2.len() - 1 {
                    assert(tv2[a] == before[a]);
                    assert(before[a].id < id);
                } else {
                    assert(tv2[a] == before[a] && tv2[b] == before[b]);
                }
            }
            assert forall|a: int| 0 <= a < tv2.len() implies 1 <= #[trigger] tv2[a].id
                < self.next_todo_id by {
                if a < tv2.len() - 1 {
                    assert(tv2[a] == before[a]);
                    assert(1 <= before[a].id < id);
                }
            }
            assert(self.users_view() == old(self).users_view());
            assert(forall|a: int, b: int|
                0 <= a < b < self.users_view().len() ==> #[trigger] self.users_view()[a].username
                    != #[trigger] self.users_view()[b].username);
            assert(forall|a: int|
                0 <= a < self.users_view().len() ==> 1 <= #[trigger] self.users_view()[a].id
                    < self.next_user_id);
            assert(forall|a: int|
                0 <= a < self.tasks_view().len() ==> 1 <= #[trigger] self.tasks_view()[a].id
                    < self.next_todo_id);
            assert(forall|a: int, b: int|
                0 <= a < b < self.tasks_view().len() ==> #[trigger] self.tasks_view()[a].id
                    < #[trigger] self.tasks_view()[b].id);
            assert(self.wf());
        }
        self.get_todos(user_id)
    }

    /// Rewrites the addressed task's title and completion flag only if the
    /// caller owns it, and returns the caller's full list. A task id that
    /// does not exist or belongs to someone else changes nothing.
    pub fn update_todo_and_return_all(
        &mut self,
        user_id: i32,
        id: i32,
        title: String,
        completed: bool,
    ) -> (r: Vec<Todo>)
        requires
            old(self).wf(),
        ensures
            final(self).wf(),
            final(self).users_view() == old(self).users_view(),
            final(self).next_user_id == old(self).next_user_id,
            final(self).next_todo_id == old(self).next_todo_id,
            final(self).tasks_view() == updated_tasks(
                old(self).tasks_view(),
                user_id as int,
                id as int,
                title@,
                completed,
            ),
            views_of(r@) == todo_list(final(self).tasks_view(), user_id as int),
    {
        let n: usize = self.todos.len();
        let mut new_tasks: Vec<TaskRecord> = Vec::new();
        let mut i: usize = 0;
        while i < n
            invariant
                n == self.todos@.len(),
                i <= n,
                *self == *old(self),
                old(self).wf(),
                views_of(new_tasks@) == updated_tasks(
                    self.tasks_view().subrange(0, i as int),
                    user_id as int,
                    id as int,
                    title@,
                    completed,
                ),
            decreases n - i,
        {
            let ghost p = self.tasks_view().subrange(0, i as int);
            let ghost q = self.tasks_view().subrange(0, i + 1);
            let ghost prev = views_of(new_tasks@);
            proof {
                assert(q =~= p.push(self.tasks_view()[i as int]));
                assert(q.drop_last() =~= p);
            }
            let t = &self.todos[i];
            if t.id == id && t.user_id == user_id {
                new_tasks.push(
                    TaskRecord { id: t.id, title: title.clone(), completed, user_id: t.user_id },
                );
            } else {
                new_tasks.push(
                    TaskRecord {
                        id: t.id,
                        title: t.title.clone(),
                        completed: t.completed,
                        user_id: t.user_id,
                    },
                );
            }
            proof {
                assert(views_of(new_tasks@) =~= prev.push(
                    update_task(
                        self.tasks_view()[i as int],
                        user_id as int,
                        id as int,
                        title@,
                        completed,
                    ),
                ));
            }
            i += 1;
        }
        proof {
            assert(self.tasks_view().subrange(0, n as int) =~= self.tasks_view());
        }
        self.todos = new_tasks;
        proof {
            let before = old(self).tasks_view();
            let after = self.tasks_view();
            lemma_updated_tasks_pointwise(before, user_id as int, id as int, title@, completed);
            assert forall|a: int| 0 <= a < after.len() implies 1 <= #[trigger] after[a].id
                < self.next_todo_id by {
                assert(after[a] == update_task(before[a], user_id as int, id as int, title@,
                    completed));
                assert(1 <= before[a].id < old(self).next_todo_id);
            }
            assert forall|a: int, b: int| 0 <= a < b < after.len() implies #[trigger] after[a].id
                < #[trigger] after[b].id by {
                assert(after[a] == update_task(before[a], user_id as int, id as int, title@,
                    completed));
                assert(after[b] == update_task(before[b], user_id as int, id as int, title@,
                    completed));
                assert(before[a].id < before[b].id);
            }
            assert(self.users_view() == old(self).users_view());
            assert(forall|a: int, b: int|
                0 <= a < b < self.users_view().len() ==> #[trigger] self.users_view()[a].username
                    != #[trigger] self.users_view()[b].username);
            assert(forall|a: int|
                0 <= a < self.users_view().len() ==> 1 <= #[trigger] self.users_view()[a].id
                    < self.next_user_id);
            assert(self.wf());
        }
        self.get_todos(user_id)
    }

    /// Removes the addressed task only if the caller owns it, and returns the
    /// caller's full list. A task id that does not exist or belongs to
    /// someone else changes nothing.
    pub fn delete_todo_and_return_all(&mut self, user_id: i32, id: i32) -> (r: Vec<Todo>)
        requires
            old(self).wf(),
        ensures
            final(self).wf(),
            final(self).users_view() == old(self).users_view(),
            final(self).next_user_id == old(self).next_user_id,
            final(self).next_todo_id == old(self).next_todo_id,
            final(self).tasks_view() == remaining_tasks(
                old(self).tasks_view(),
                user_id as int,
                id as int,
            ),
            views_of(r@) == todo_list(final(self).tasks_view(), user_id as int),
    {
        let n: usize = self.todos.len();
        let mut new_tasks: Vec<TaskRecord> = Vec::new();
        let mut i: usize = 0;
        while i < n
            invariant
                n == self.todos@.len(),
                i <= n,
                *self == *old(self),
                old(self).wf(),
                views_of(new_tasks@) == remaining_tasks(
                    self.tasks_view().subrange(0, i as int),
                    user_id as int,
                    id as int,
                ),
            decreases n - i,
        {
            let ghost p = self.tasks_view().subrange(0, i as int);
            let ghost q = self.tasks_view().subrange(0, i + 1);
            let ghost prev = views_of(new_tasks@);
            proof {
                assert(q =~= p.push(self.tasks_view()[i as int]));
                assert(q.drop_last() =~= p);
            }
            let t = &self.todos[i];
            if t.id == id && t.user_id == user_id {
                proof {
                    assert(views_of(new_tasks@) =~= prev);
                }
            } else {
                new_tasks.push(
                    TaskRecord {
                        id: t.id,
                        title: t.title.clone(),
                        completed: t.completed,
                        user_id: t.user_id,
                    },
                );
                proof {
                    assert(views_of(new_tasks@) =~= prev.push(self.tasks_view()[i as int]));
                }
            }
            i += 1;
        }
        proof {
            assert(self.tasks_view().subrange(0, n as int) =~= self.tasks_view());
        }
        self.todos = new_tasks;
        proof {
            let before = old(self).tasks_view();
            lemma_remaining_tasks_sorted(
                before,
                user_id as int,
                id as int,
                old(self).next_todo_id as int,
            );
            assert(self.users_view() == old(self).users_view());
            assert(forall|a: int, b: int|
                0 <= a < b < self.users_view().len() ==> #[trigger] self.users_view()[a].username
                    != #[trigger] self.users_view()[b].username);
            assert(forall|a: int|
                0 <= a < self.users_view().len() ==> 1 <= #[trigger] self.users_view()[a].id
                    < self.next_user_id);
            assert(self.wf());
        }
        self.get_todos(user_id)
    }
}

/// Each row after an update request is the pointwise image of the row before
/// it: the addressed, owned row rewritten, every other row untouched.
pub proof fn lemma_updated_tasks_pointwise(
    tasks: Seq<TaskView>,
    user_id: int,
    id: int,
    title: Seq<char>,
    completed: bool,
)
    ensures
        updated_tasks(tasks, user_id, id, title, completed).len() == tasks.len(),
        forall|k: int|
            0 <= k < tasks.len() ==> #[trigger] updated_tasks(tasks, user_id, id, title, completed)[k]
                == update_task(tasks[k], user_id, id, title, completed),
    decreases tasks.len(),
{
    if tasks.len() > 0 {
        let dl = tasks.drop_last();
        lemma_updated_tasks_pointwise(dl, user_id, id, title, completed);
        assert(forall|k: int| 0 <= k < dl.len() ==> dl[k] == tasks[k]);
        assert(updated_tasks(tasks, user_id, id, title, completed) == updated_tasks(
            dl,
            user_id,
            id,
            title,
            completed,
        ).push(update_task(tasks.last(), user_id, id, title, completed)));
    }
}

/// What a delete leaves keeps ids in bounds and ascending, and every kept
/// row is one of the rows that were there.
pub proof fn lemma_remaining_tasks_sorted(tasks: Seq<TaskView>, user_id: int, id: int, bound: int)
    requires
        forall|a: int, b: int|
            0 <= a < b < tasks.len() ==> #[trigger] tasks[a].id < #[trigger] tasks[b].id,
        forall|a: int| 0 <= a < tasks.len() ==> 1 <= #[trigger] tasks[a].id < bound,
    ensures
        forall|a: int|
            0 <= a < remaining_tasks(tasks, user_id, id).len() ==> exists|k: int|
                0 <= k < tasks.len() && #[trigger] remaining_tasks(tasks, user_id, id)[a]
                    == tasks[k],
        forall|a: int|
            0 <= a < remaining_tasks(tasks, user_id, id).len() ==> 1 <= (
            #[trigger] remaining_tasks(tasks, user_id, id)[a].id) < bound,
        forall|a: int, b: int|
            0 <= a < b < remaining_tasks(tasks, user_id, id).len() ==> (
            #[trigger] remaining_tasks(tasks, user_id, id)[a].id) < (
            #[trigger] remaining_tasks(tasks, user_id, id)[b].id),
    decreases tasks.len(),
{
    if tasks.len() > 0 {
        let dl = tasks.drop_last();
        let r = remaining_tasks(tasks, user_id, id);
        let rd = remaining_tasks(dl, user_id, id);
        lemma_remaining_tasks_sorted(dl, user_id, id, bound);
        assert(forall|k: int| 0 <= k < dl.len() ==> dl[k] == tasks[k]);
        if tasks.last().id == id && tasks.last().user_id == user_id {
            assert(r == rd);
            assert forall|a: int| 0 <= a < r.len() implies exists|k: int|
                0 <= k < tasks.len() && #[trigger] r[a] == tasks[k] by {
                let k = choose|k: int| 0 <= k < dl.len() && #[trigger] rd[a] == dl[k];
                assert(r[a] == tasks[k]);
            }
        } else {
            assert(r == rd.push(tasks.last()));
            assert forall|a: int| 0 <= a < r.len() implies exists|k: int|
                0 <= k < tasks.len() && #[trigger] r[a] == tasks[k] by {
                if a < r.len() - 1 {
                    let k = choose|k: int| 0 <= k < dl.len() && #[trigger] rd[a] == dl[k];
                    assert(r[a] == tasks[k]);
                } else {
                    assert(r[a] == tasks[tasks.len() - 1]);
                }
            }
            assert forall|a: int, b: int| 0 <= a < b < r.len() implies (#[trigger] r[a].id) < (
            #[trigger] r[b].id) by {
                if b == r.len() - 1 {
                    let k = choose|k: int| 0 <= k < dl.len() && #[trigger] rd[a] == dl[k];
                    assert(tasks[k].id < tasks.last().id);
                }
            }
        }
    }
}

/// Appending one row to the store extends a user's list by that row exactly
/// when the user owns it.
pub proof fn lemma_todo_list_push(tasks: Seq<TaskView>, user_id: int, x: TaskView)
    ensures
        todo_list(tasks.push(x), user_id) == (if x.user_id == user_id {
            todo_list(tasks, user_id).push(to_todo(x))
        } else {
            todo_list(tasks, user_id)
        }),
{
    assert(tasks.push(x).drop_last() =~= tasks);
    assert(tasks.push(x).last() == x);
}

/// Every id in a user's list stays below any bound the store's ids are
/// below.
proof fn lemma_todo_list_id_bound(tasks: Seq<TaskView>, user_id: int, bound: int)
    requires
        forall|k: int| 0 <= k < tasks.len() ==> #[trigger] tasks[k].id < bound,
    ensures
        forall|a: int|
            0 <= a < todo_list(tasks, user_id).len() ==> #[trigger] todo_list(tasks, user_id)[a].id
                < bound,
    decreases tasks.len(),
{
    if tasks.len() > 0 {
        let dl = tasks.drop_last();
        assert(forall|k: int| 0 <= k < dl.len() ==> dl[k] == tasks[k]);
        lemma_todo_list_id_bound(dl, user_id, bound);
        assert(tasks[tasks.len() - 1] == tasks.last());
        let l = todo_list(tasks, user_id);
        let ld = todo_list(dl, user_id);
        if tasks.last().user_id == user_id {
            assert(l == ld.push(to_todo(tasks.last())));
            assert forall|a: int| 0 <= a < l.len() implies (#[trigger] l[a].id) < bound by {
                if a < l.len() - 1 {
                    assert(l[a] == ld[a]);
                } else {
                    assert(l[a] == to_todo(tasks.last()));
                }
            }
        } else {
            assert(l == ld);
        }
    }
}

/// In a store whose rows ascend by id, each user's list ascends by id: the
/// owner filter returns tasks ordered by ascending id.
pub proof fn lemma_todo_list_sorted(tasks: Seq<TaskView>, user_id: int)
    requires
        forall|a: int, b: int|
            0 <= a < b < tasks.len() ==> #[trigger] tasks[a].id < #[trigger] tasks[b].id,
    ensures
        forall|a: int, b: int|
            0 <= a < b < todo_list(tasks, user_id).len() ==> (#[trigger] todo_list(
                tasks,
                user_id,
            )[a].id) < (#[trigger] todo_list(tasks, user_id)[b].id),
    decreases tasks.len(),
{
    if tasks.len() > 0 {
        let dl = tasks.drop_last();
        assert(forall|k: int| 0 <= k < dl.len() ==> dl[k] == tasks[k]);
        lemma_todo_list_sorted(dl, user_id);
        assert(forall|k: int| 0 <= k < dl.len() ==> #[trigger] dl[k].id < tasks.last().id);
        lemma_todo_list_id_bound(dl, user_id, tasks.last().id);
        let l = todo_list(tasks, user_id);
        if tasks.last().user_id == user_id {
            assert(l == todo_list(dl, user_id).push(to_todo(tasks.last())));
            assert forall|a: int, b: int| 0 <= a < b < l.len() implies (#[trigger] l[a].id) < (
            #[trigger] l[b].id) by {
                if b == l.len() - 1 {
                    assert(l[a] == todo_list(dl, user_id)[a]);
                }
            }
        }
    }
}

/// Tasks created by one user never appear in another user's list.
pub proof fn lemma_create_isolation(tasks: Seq<TaskView>, creator: int, other: int, t: TaskView)
    requires
        t.user_id == creator,
        creator != other,
    ensures
        todo_list(tasks.push(t), other) == todo_list(tasks, other),
{
    lemma_todo_list_push(tasks, other, t);
}

/// An update issued by one user never changes what any other user sees.
pub proof fn lemma_update_isolation(
    tasks: Seq<TaskView>,
    actor: int,
    other: int,
    id: int,
    title: Seq<char>,
    completed: bool,
)
    requires
        actor != other,
    ensures
        todo_list(updated_tasks(tasks, actor, id, title, completed), other) == todo_list(
            tasks,
            other,
        ),
    decreases tasks.len(),
{
    if tasks.len() > 0 {
        let dl = tasks.drop_last();
        lemma_update_isolation(dl, actor, other, id, title, completed);
        let x = update_task(tasks.last(), actor, id, title, completed);
        assert(updated_tasks(tasks, actor, id, title, completed) == updated_tasks(
            dl,
            actor,
            id,
            title,
            completed,
        ).push(x));
        lemma_todo_list_push(updated_tasks(dl, actor, id, title, completed), other, x);
        assert(x.user_id == tasks.last().user_id);
        if tasks.last().user_id == other {
            assert(x == tasks.last());
        }
    }
}

/// A delete issued by one user never changes what any other user sees.
pub proof fn lemma_delete_isolation(tasks: Seq<TaskView>, actor: int, other: int, id: int)
    requires
        actor != other,
    ensures
        todo_list(remaining_tasks(tasks, actor, id), other) == todo_list(tasks, other),
    decreases tasks.len(),
{
    if tasks.len() > 0 {
        let dl = tasks.drop_last();
        lemma_delete_isolation(dl, actor, other, id);
        if tasks.last().id == id && tasks.last().user_id == actor {
            assert(remaining_tasks(tasks, actor, id) == remaining_tasks(dl, actor, id));
            assert(tasks.last().user_id != other);
        } else {
            assert(remaining_tasks(tasks, actor, id) == remaining_tasks(dl, actor, id).push(
                tasks.last(),
            ));
            lemma_todo_list_push(remaining_tasks(dl, actor, id), other, tasks.last());
        }
    }
}

/// An update addressed at a task the caller does not own changes no row at
/// all: the store after the request is the store before it.
pub proof fn lemma_update_foreign_noop(
    tasks: Seq<TaskView>,
    user_id: int,
    id: int,
    title: Seq<char>,
    completed: bool,
)
    requires
        forall|k: int| #![trigger tasks[k]]
            0 <= k < tasks.len() && tasks[k].id == id ==> tasks[k].user_id != user_id,
    ensures
        updated_tasks(tasks, user_id, id, title, completed) == tasks,
    decreases tasks.len(),
{
    if tasks.len() > 0 {
        let dl = tasks.drop_last();
        assert(forall|k: int| 0 <= k < dl.len() ==> dl[k] == tasks[k]);
        lemma_update_foreign_noop(dl, user_id, id, title, completed);
        assert(tasks[tasks.len() - 1] == tasks.last());
        assert(update_task(tasks.last(), user_id, id, title, completed) == tasks.last());
        assert(updated_tasks(tasks, user_id, id, title, completed) =~= tasks);
    }
}

/// A delete addressed at a task the caller does not own removes no row at
/// all: the store after the request is the store before it.
pub proof fn lemma_delete_foreign_noop(tasks: Seq<TaskView>, user_id: int, id: int)
    requires
        forall|k: int| #![trigger tasks[k]]
            0 <= k < tasks.len() && tasks[k].id == id ==> tasks[k].user_id != user_id,
    ensures
        remaining_tasks(tasks, user_id, id) == tasks,
    decreases tasks.len(),
{
    if tasks.len() > 0 {
        let dl = tasks.drop_last();
        assert(forall|k: int| 0 <= k < dl.len() ==> dl[k] == tasks[k]);
        lemma_delete_foreign_noop(dl, user_id, id);
        assert(tasks[tasks.len() - 1] == tasks.last());
        assert(remaining_tasks(tasks, user_id, id) =~= tasks);
    }
}

/// A fresh signup's credentials authenticate: pushing a user whose username
/// was free and whose stored hash matches the password makes the lookup
/// yield exactly that user's id.
pub proof fn lemma_signup_then_authenticate(
    users: Seq<UserView>,
    u: UserView,
    password: Seq<char>,
)
    requires
        !has_username(users, u.username),
        password_matches(password, u.password_hash),
    ensures
        auth_lookup(users.push(u), u.username, password) == Some(u.id),
    decreases users.len(),
{
    if users.len() == 0 {
        assert(users.push(u)[0] == u);
    } else {
        assert(users[0].username != u.username) by {
            if users[0].username == u.username {
                assert(has_username(users, u.username));
            }
        }
        assert(!has_username(users.drop_first(), u.username)) by {
            if has_username(users.drop_first(), u.username) {
                let k = choose|k: int|
                    0 <= k < users.drop_first().len() && users.drop_first()[k].username
                        == u.username;
                assert(users[k + 1].username == u.username);
                assert(has_username(users, u.username));
            }
        }
        assert(users.push(u)[0] == users[0]);
        assert(users.push(u).drop_first() =~= users.drop_first().push(u));
        lemma_signup_then_authenticate(users.drop_first(), u, password);
    }
}

/// An unknown username authenticates to nothing.
pub proof fn lemma_auth_unknown_username(users: Seq<UserView>, name: Seq<char>, password: Seq<char>)
    requires
        !has_username(users, name),
    ensures
        auth_lookup(users, name, password) is None,
    decreases users.len(),
{
    if users.len() > 0 {
        assert(users[0].username != name) by {
            if users[0].username == name {
                assert(has_username(users, name));
            }
        }
        assert(!has_username(users.drop_first(), name)) by {
            if has_username(users.drop_first(), name) {
                let k = choose|k: int|
                    0 <= k < users.drop_first().len() && users.drop_first()[k].username == name;
                assert(users[k + 1].username == name);
                assert(has_username(users, name));
            }
        }
        lemma_auth_unknown_username(users.drop_first(), name, password);
    }
}

/// A password that matches no stored hash for the username authenticates to
/// nothing.
pub proof fn lemma_auth_wrong_password(users: Seq<UserView>, name: Seq<char>, password: Seq<char>)
    requires
        forall|k: int| #![trigger users[k]]
            0 <= k < users.len() && users[k].username == name ==> !password_matches(
                password,
                users[k].password_hash,
            ),
    ensures
        auth_lookup(users, name, password) is None,
    decreases users.len(),
{
    if users.len() > 0 {
        assert(users[0].username == name ==> !password_matches(password, users[0].password_hash));
        assert(forall|k: int|
            0 <= k < users.drop_first().len() ==> users.drop_first()[k] == users[k + 1]);
        lemma_auth_wrong_password(users.drop_first(), name, password);
    }
}

/// The two login failure cases are indistinguishable: an unknown username
/// and a wrong password produce the very same outcome.
pub proof fn lemma_auth_failure_uniform(
    users: Seq<UserView>,
    unknown_name: Seq<char>,
    pw1: Seq<char>,
    known_name: Seq<char>,
    pw2: Seq<char>,
)
    requires
        !has_username(users, unknown_name),
        forall|k: int| #![trigger users[k]]
            0 <= k < users.len() && users[k].username == known_name ==> !password_matches(
                pw2,
                users[k].password_hash,
            ),
    ensures
        auth_lookup(users, unknown_name, pw1) == auth_lookup(users, known_name, pw2),
        auth_lookup(users, unknown_name, pw1) is None,
{
    lemma_auth_unknown_username(users, unknown_name, pw1);
    lemma_auth_wrong_password(users, known_name, pw2);
}

/// Usernames that differ only by case or whitespace normalize to one
/// identity: either both are taken or neither is.
pub proof fn lemma_username_identity(users: Seq<UserView>, a: Seq<char>, b: Seq<char>)
    requires
        crate::text::normalize(a) == crate::text::normalize(b),
    ensures
        has_username(users, crate::text::normalize(a)) == has_username(
            users,
            crate::text::normalize(b),
        ),
{
}

} // verus!
