use crate::cipher::{decrypt, derive_cipher, derived_key, encrypt, opened, opt_view, sealed, Cipher};
use crate::doc::{holds_string, is_rewrite, lemma_rename_propagation, replace_path, var_ref, Doc};
use crate::error::{Error, ErrorKind};
use crate::order::{lemma_lex_total, lemma_lex_trans, lex_lt, path_less};
use crate::utils::not_found_if_none;
use crate::resolve::{resolution, Resolution};
use vstd::prelude::*;

verus! {

/// A stored variable.
#[derive(Debug)]
pub struct Variable {
    pub workspace_id: String,
    pub path: String,
    /// Plaintext for a plain variable; base64 ciphertext (or empty) for a secret.
    pub value: String,
    pub is_secret: bool,
    pub description: String,
    pub account: Option<i64>,
    pub is_oauth: bool,
}

/// An OAuth-linked account that a variable may take its value from.
#[derive(Debug)]
pub struct Account {
    pub id: i64,
    pub workspace_id: String,
    /// When the current access token expires.
    pub expires_at: i64,
    pub refresh_token: String,
    pub refresh_error: Option<String>,
}

/// A document at a path of a workspace, possibly referring to variables.
#[derive(Debug)]
pub struct Resource {
    pub workspace_id: String,
    pub path: String,
    pub value: Option<Doc>,
}

/// The key material of a workspace.
#[derive(Debug)]
pub struct WorkspaceKey {
    pub workspace_id: String,
    pub key: String,
}

/// The kind of action an audit record is about.
#[derive(Debug, Clone, Copy, PartialEq, Eq, Structural)]
pub enum ActionKind {
    Create,
    Update,
    Delete,
    Execute,
}

/// One audit record.
#[derive(Debug)]
pub struct AuditRecord {
    pub username: String,
    pub operation: String,
    pub action: ActionKind,
    pub workspace_id: String,
    pub resource: String,
}

/// A notification sent once an operation has committed.
#[derive(Debug)]
pub enum Notification {
    CreateVariable { workspace: String, path: String },
    UpdateVariable { workspace: String, old_path: String, new_path: String },
    DeleteVariable { workspace: String, path: String },
}

/// What a caller asks to create.
#[derive(Debug)]
pub struct CreateVariable {
    pub path: String,
    pub value: String,
    pub is_secret: bool,
    pub description: String,
    pub account: Option<i64>,
    pub is_oauth: Option<bool>,
}

/// What a caller asks to change; absent fields stay as they are.
#[derive(Debug)]
pub struct EditVariable {
    pub path: Option<String>,
    pub value: Option<String>,
    pub is_secret: Option<bool>,
    pub description: Option<String>,
}

/// A variable as shown to a caller.
#[derive(Debug)]
pub struct ListableVariable {
    pub workspace_id: String,
    pub path: String,
    pub value: Option<String>,
    pub is_secret: bool,
    pub description: String,
    pub account: Option<i64>,
    pub is_oauth: bool,
    pub is_expired: Option<bool>,
    pub refresh_error: Option<String>,
    pub is_linked: Option<bool>,
    pub is_refreshed: Option<bool>,
}

/// The outcome of reading a variable for display.
#[derive(Debug)]
pub enum VariableOutcome {
    /// The variable, with its value resolved or masked.
    Ready(ListableVariable),
    /// The value is a token of `account` to be refreshed; `variable` is the
    /// rest of the answer, its value left out.
    Refresh { variable: ListableVariable, account: i64 },
}

/// A token handed back by the token refresher.
#[derive(Debug)]
pub struct RefreshedToken {
    pub access_token: String,
    /// When the new token expires.
    pub expires_at: i64,
}

/// The outcome of resolving a variable's value.
#[derive(Debug)]
pub enum ValueOutcome {
    Ready(String),
    /// The value is a token of this account, to be refreshed.
    Refresh(i64),
}

/// The variables, linked resources, accounts and workspace keys of all
/// workspaces, with the audit records and notifications emitted so far.
#[derive(Debug)]
pub struct Store {
    pub keys: Vec<WorkspaceKey>,
    /// The process-wide salt appended to every workspace key, if any.
    pub salt: Option<String>,
    pub variables: Vec<Variable>,
    pub resources: Vec<Resource>,
    pub accounts: Vec<Account>,
    pub audit: Vec<AuditRecord>,
    pub notifications: Vec<Notification>,
}

pub open spec fn var_is(v: Variable, w: Seq<char>, p: Seq<char>) -> bool {
    v.workspace_id@ == w && v.path@ == p
}

pub open spec fn res_is(r: Resource, w: Seq<char>, p: Seq<char>) -> bool {
    r.workspace_id@ == w && r.path@ == p
}

/// The audit record `a` says that `user` did `op` of kind `k` on `p` in `w`.
pub open spec fn audit_is(a: AuditRecord, user: Seq<char>, op: Seq<char>, k: ActionKind, w: Seq<char>, p: Seq<char>) -> bool {
    a.username@ == user && a.operation@ == op && a.action == k && a.workspace_id@ == w && a.resource@ == p
}

/// Where a row with path `x` goes in rows sorted by path: after every row
/// that does not come after it.
fn insertion_point(rows: &Vec<ListableVariable>, x: &str) -> (pos: usize)
    ensures
        pos <= rows@.len(),
        forall|k: int| 0 <= k < pos ==> !lex_lt(x@, #[trigger] rows@[k].path@),
        pos < rows@.len() ==> lex_lt(x@, rows@[pos as int].path@),
{
    let mut pos: usize = 0;
    while pos < rows.len()
        invariant
            pos <= rows@.len(),
            forall|k: int| 0 <= k < pos ==> !lex_lt(x@, #[trigger] rows@[k].path@),
        decreases rows@.len() - pos,
    {
        if path_less(x, rows[pos].path.as_str()) {
            return pos;
        }
        pos = pos + 1;
    }
    pos
}

/// `l` shows the value of `v` as a listing does: plain values as stored,
/// secrets without a value.
pub open spec fn listed_value(l: ListableVariable, v: Variable) -> bool {
    if v.is_secret {
        l.value is None
    } else {
        opt_view(l.value) == Some(v.value@)
    }
}

impl Store {
    /// No two variables, resources or workspace keys share a workspace and a
    /// path, and no two accounts share an id.
    pub open spec fn wf(&self) -> bool {
        &&& forall|i: int, j: int|
            0 <= i < j < self.variables@.len() ==> !var_is(
                #[trigger] self.variables@[i],
                self.variables@[j].workspace_id@,
                #[trigger] self.variables@[j].path@,
            )
        &&& forall|i: int, j: int|
            0 <= i < j < self.resources@.len() ==> !res_is(
                #[trigger] self.resources@[i],
                self.resources@[j].workspace_id@,
                #[trigger] self.resources@[j].path@,
            )
        &&& forall|i: int, j: int|
            0 <= i < j < self.keys@.len() ==> (#[trigger] self.keys@[i]).workspace_id@
                != (#[trigger] self.keys@[j]).workspace_id@
        &&& forall|i: int, j: int|
            0 <= i < j < self.accounts@.len() ==> (#[trigger] self.accounts@[i]).id
                != (#[trigger] self.accounts@[j]).id
    }

    pub open spec fn has_variable(&self, w: Seq<char>, p: Seq<char>) -> bool {
        exists|i: int| 0 <= i < self.variables@.len() && var_is(#[trigger] self.variables@[i], w, p)
    }

    /// The position of the variable at `p` in `w`.
    pub open spec fn variable_index(&self, w: Seq<char>, p: Seq<char>) -> int {
        choose|i: int| 0 <= i < self.variables@.len() && var_is(#[trigger] self.variables@[i], w, p)
    }

    pub open spec fn variable(&self, w: Seq<char>, p: Seq<char>) -> Variable {
        self.variables@[self.variable_index(w, p)]
    }

    pub open spec fn has_resource(&self, w: Seq<char>, p: Seq<char>) -> bool {
        exists|i: int| 0 <= i < self.resources@.len() && res_is(#[trigger] self.resources@[i], w, p)
    }

    pub open spec fn resource_index(&self, w: Seq<char>, p: Seq<char>) -> int {
        choose|i: int| 0 <= i < self.resources@.len() && res_is(#[trigger] self.resources@[i], w, p)
    }

    /// The key material on record for `w`.
    pub open spec fn key_material(&self, w: Seq<char>) -> Option<Seq<char>> {
        if exists|i: int| 0 <= i < self.keys@.len() && (#[trigger] self.keys@[i]).workspace_id@ == w {
            let i = choose|i: int| 0 <= i < self.keys@.len() && (#[trigger] self.keys@[i]).workspace_id@ == w;
            Some(self.keys@[i].key@)
        } else {
            None
        }
    }

    /// The key the secrets of `w` are encrypted under, given its key material.
    pub open spec fn cipher_key(&self, w: Seq<char>) -> Seq<char> {
        derived_key(self.key_material(w)->Some_0, opt_view(self.salt))
    }

    /// What is stored for `value` in `w`: its encryption when it is a secret
    /// that the caller has not encrypted already, else the value itself.
    pub open spec fn stored_form(&self, w: Seq<char>, value: Seq<char>, secret: bool, already_encrypted: bool) -> Seq<char> {
        if secret && !already_encrypted {
            sealed(self.cipher_key(w), value)
        } else {
            value
        }
    }

    pub open spec fn has_account(&self, id: i64) -> bool {
        exists|i: int| 0 <= i < self.accounts@.len() && (#[trigger] self.accounts@[i]).id == id
    }

    pub open spec fn account(&self, id: i64) -> Account {
        let i = choose|i: int| 0 <= i < self.accounts@.len() && (#[trigger] self.accounts@[i]).id == id;
        self.accounts@[i]
    }

    /// The token of the variable's account has expired at `now`.
    pub open spec fn token_expired(&self, v: Variable, now: i64) -> bool {
        v.account is Some && self.has_account(v.account->Some_0) && now > self.account(
            v.account->Some_0,
        ).expires_at
    }

    /// Finds the variable at `path` in `w_id`.
    pub fn find_variable(&self, w_id: &str, path: &str) -> (r: Option<usize>)
        requires
            self.wf(),
        ensures
            r is None <==> !self.has_variable(w_id@, path@),
            r is Some ==> r->Some_0 == self.variable_index(w_id@, path@) && r->Some_0
                < self.variables@.len(),
    {
        let w = String::from_str(w_id);
        let p = String::from_str(path);
        let mut i: usize = 0;
        while i < self.variables.len()
            invariant
                self.wf(),
                i <= self.variables@.len(),
                w@ == w_id@,
                p@ == path@,
                forall|j: int| 0 <= j < i ==> !var_is(#[trigger] self.variables@[j], w_id@, path@),
            decreases self.variables@.len() - i,
        {
            if self.variables[i].workspace_id == w && self.variables[i].path == p {
                proof {
                    assert(var_is(self.variables@[i as int], w_id@, path@));
                    assert(self.has_variable(w_id@, path@));
                    let k = self.variable_index(w_id@, path@);
                    if k != i {
                        if k < i {
                            assert(!var_is(self.variables@[k], self.variables@[i as int].workspace_id@, self.variables@[i as int].path@));
                        } else {
                            assert(!var_is(self.variables@[i as int], self.variables@[k].workspace_id@, self.variables@[k].path@));
                        }
                    }
                }
                return Some(i);
            }
            i = i + 1;
        }
        None
    }

    /// Finds the resource at `path` in `w_id`.
    pub fn find_resource(&self, w_id: &str, path: &str) -> (r: Option<usize>)
        requires
            self.wf(),
        ensures
            r is None <==> !self.has_resource(w_id@, path@),
            r is Some ==> r->Some_0 == self.resource_index(w_id@, path@) && r->Some_0
                < self.resources@.len(),
    {
        let w = String::from_str(w_id);
        let p = String::from_str(path);
        let mut i: usize = 0;
        while i < self.resources.len()
            invariant
                self.wf(),
                i <= self.resources@.len(),
                w@ == w_id@,
                p@ == path@,
                forall|j: int| 0 <= j < i ==> !res_is(#[trigger] self.resources@[j], w_id@, path@),
            decreases self.resources@.len() - i,
        {
            if self.resources[i].workspace_id == w && self.resources[i].path == p {
                proof {
                    assert(res_is(self.resources@[i as int], w_id@, path@));
                    assert(self.has_resource(w_id@, path@));
                    let k = self.resource_index(w_id@, path@);
                    if k != i {
                        if k < i {
                            assert(!res_is(self.resources@[k], self.resources@[i as int].workspace_id@, self.resources@[i as int].path@));
                        } else {
                            assert(!res_is(self.resources@[i as int], self.resources@[k].workspace_id@, self.resources@[k].path@));
                        }
                    }
                }
                return Some(i);
            }
            i = i + 1;
        }
        None
    }

    /// Finds the account with id `id`.
    pub fn find_account(&self, id: i64) -> (r: Option<usize>)
        requires
            self.wf(),
        ensures
            r is None <==> !self.has_account(id),
            r is Some ==> r->Some_0 < self.accounts@.len() && self.accounts@[r->Some_0 as int]
                == self.account(id),
    {
        let mut i: usize = 0;
        while i < self.accounts.len()
            invariant
                self.wf(),
                i <= self.accounts@.len(),
                forall|j: int| 0 <= j < i ==> (#[trigger] self.accounts@[j]).id != id,
            decreases self.accounts@.len() - i,
        {
            if self.accounts[i].id == id {
                proof {
                    assert(self.has_account(id));
                    let k = choose|k: int| 0 <= k < self.accounts@.len() && (#[trigger] self.accounts@[k]).id == id;
                    if k != i {
                        if k < i {
                            assert(self.accounts@[k].id != self.accounts@[i as int].id);
                        } else {
                            assert(self.accounts@[i as int].id != self.accounts@[k].id);
                        }
                    }
                }
                return Some(i);
            }
            i = i + 1;
        }
        None
    }

    /// The key material of `w_id`; fails `KeyNotFound` when none is on record.
    pub fn get_workspace_key(&self, w_id: &str) -> (r: Result<String, Error>)
        requires
            self.wf(),
        ensures
            r is Ok <==> self.key_material(w_id@) is Some,
            r is Ok ==> Some(r->Ok_0@) == self.key_material(w_id@),
            r is Err ==> r->Err_0 is KeyNotFound,
    {
        let w = String::from_str(w_id);
        let mut i: usize = 0;
        while i < self.keys.len()
            invariant
                self.wf(),
                i <= self.keys@.len(),
                w@ == w_id@,
                forall|j: int| 0 <= j < i ==> (#[trigger] self.keys@[j]).workspace_id@ != w_id@,
            decreases self.keys@.len() - i,
        {
            if self.keys[i].workspace_id == w {
                proof {
                    assert(0 <= i < self.keys@.len() && self.keys@[i as int].workspace_id@ == w_id@);
                    let k = choose|k: int| 0 <= k < self.keys@.len() && (#[trigger] self.keys@[k]).workspace_id@ == w_id@;
                    if k != i {
                        if k < i {
                            assert(self.keys@[k].workspace_id@ != self.keys@[i as int].workspace_id@);
                        } else {
                            assert(self.keys@[i as int].workspace_id@ != self.keys@[k].workspace_id@);
                        }
                    }
                }
                return Ok(self.keys[i].key.clone());
            }
            i = i + 1;
        }
        Err(Error::KeyNotFound(String::from_str("no key is on record for the workspace")))
    }

    /// The cipher of `w_id`: its key material followed by the salt, if any.
    pub fn build_crypt(&self, w_id: &str) -> (r: Result<Cipher, Error>)
        requires
            self.wf(),
        ensures
            r is Ok <==> self.key_material(w_id@) is Some,
            r is Ok ==> r->Ok_0.key@ == self.cipher_key(w_id@),
            r is Err ==> r->Err_0 is KeyNotFound,
    {
        let key = self.get_workspace_key(w_id)?;
        Ok(derive_cipher(key.as_str(), &self.salt))
    }

    /// Encrypts `value` under the key of `w_id`, for callers that store it
    /// already encrypted.
    pub fn encrypt_value(&self, w_id: &str, value: &str) -> (r: Result<String, Error>)
        requires
            self.wf(),
        ensures
            r is Ok <==> self.key_material(w_id@) is Some,
            r is Ok ==> r->Ok_0@ == sealed(self.cipher_key(w_id@), value@),
            r is Err ==> r->Err_0 is KeyNotFound,
    {
        let mc = self.build_crypt(w_id)?;
        Ok(encrypt(&mc, value))
    }

    /// Whether a variable is at `path` in `w_id`.
    pub fn exists_variable(&self, w_id: &str, path: &str) -> (r: bool)
        requires
            self.wf(),
        ensures
            r == self.has_variable(w_id@, path@),
    {
        self.find_variable(w_id, path).is_some()
    }

    /// Fails `Conflict` when a variable is already at `path` in `w_id`.
    pub fn check_path_conflict(&self, w_id: &str, path: &str) -> (r: Result<(), Error>)
        requires
            self.wf(),
        ensures
            r is Ok <==> !self.has_variable(w_id@, path@),
            r is Err ==> r->Err_0 is Conflict,
    {
        if self.exists_variable(w_id, path) {
            let m = String::from_str("Variable ").concat(path).concat(" already exists");
            Err(Error::Conflict(m))
        } else {
            Ok(())
        }
    }

    /// Keys, salt and accounts are those of `o`.
    pub open spec fn same_config(&self, o: &Store) -> bool {
        self.keys == o.keys && self.salt == o.salt && self.accounts == o.accounts
    }

    /// `n` is `self` after `user` created `c` in `w`: one more variable, one
    /// audit record and one notification.
    pub open spec fn create_effect(&self, n: &Store, user: Seq<char>, w: Seq<char>, c: &CreateVariable, already_encrypted: bool) -> bool {
        let v = n.variables@.last();
        &&& n.variables@.len() > 0
        &&& n.variables@.drop_last() == self.variables@
        &&& var_is(v, w, c.path@)
        &&& v.value@ == self.stored_form(w, c.value@, c.is_secret, already_encrypted)
        &&& c.is_secret && !already_encrypted ==> v.value@.len() > 0
        &&& v.is_secret == c.is_secret
        &&& v.description@ == c.description@
        &&& v.account == c.account
        &&& v.is_oauth == (c.is_oauth == Some(true))
        &&& n.same_config(self)
        &&& n.resources == self.resources
        &&& n.audit@.len() > 0
        &&& n.audit@.drop_last() == self.audit@
        &&& audit_is(n.audit@.last(), user, "variables.create"@, ActionKind::Create, w, c.path@)
        &&& n.notifications@.len() > 0
        &&& n.notifications@.drop_last() == self.notifications@
        &&& n.notifications@.last() matches Notification::CreateVariable { workspace, path }
            && workspace@ == w && path@ == c.path@
    }

    /// Creates a variable at `variable.path` in `w_id`, encrypting its value
    /// when it is a secret that the caller has not encrypted already.
    pub fn create_variable(
        &mut self,
        username: &str,
        w_id: &str,
        variable: CreateVariable,
        already_encrypted: bool,
    ) -> (r: Result<String, Error>)
        requires
            old(self).wf(),
        ensures
            final(self).wf(),
            r is Err ==> *final(self) == *old(self),
            (r is Err && r->Err_0 is Conflict) <==> old(self).has_variable(w_id@, variable.path@),
            (r is Err && r->Err_0 is KeyNotFound) <==> (!old(self).has_variable(
                w_id@,
                variable.path@,
            ) && variable.is_secret && !already_encrypted && old(self).key_material(w_id@) is None),
            r is Err ==> (r->Err_0 is Conflict || r->Err_0 is KeyNotFound),
            r is Ok ==> old(self).create_effect(final(self), username@, w_id@, &variable, already_encrypted),
            r is Ok ==> r->Ok_0@ == "variable "@ + variable.path@ + " created"@,
    {
        self.check_path_conflict(w_id, variable.path.as_str())?;
        let value = if variable.is_secret && !already_encrypted {
            let mc = self.build_crypt(w_id)?;
            encrypt(&mc, variable.value.as_str())
        } else {
            variable.value
        };
        let msg = String::from_str("variable ").concat(variable.path.as_str()).concat(" created");
        let is_oauth = match variable.is_oauth {
            Some(b) => b,
            None => false,
        };
        let ghost old_vars = self.variables@;
        self.variables.push(
            Variable {
                workspace_id: String::from_str(w_id),
                path: variable.path.clone(),
                value,
                is_secret: variable.is_secret,
                description: variable.description,
                account: variable.account,
                is_oauth,
            },
        );
        proof {
            assert(self.variables@.drop_last() =~= old_vars);
            assert forall|i: int, j: int|
                0 <= i < j < self.variables@.len() implies !var_is(
                #[trigger] self.variables@[i],
                self.variables@[j].workspace_id@,
                #[trigger] self.variables@[j].path@,
            ) by {
                if j == old_vars.len() {
                    assert(!var_is(old_vars[i], w_id@, variable.path@));
                } else {
                    assert(self.variables@[i] == old_vars[i] && self.variables@[j] == old_vars[j]);
                }
            }
        }
        self.audit.push(
            AuditRecord {
                username: String::from_str(username),
                operation: String::from_str("variables.create"),
                action: ActionKind::Create,
                workspace_id: String::from_str(w_id),
                resource: variable.path.clone(),
            },
        );
        self.notifications.push(
            Notification::CreateVariable { workspace: String::from_str(w_id), path: variable.path },
        );
        proof {
            assert(self.audit@.drop_last() =~= old(self).audit@);
            assert(self.notifications@.drop_last() =~= old(self).notifications@);
        }
        Ok(msg)
    }

    /// The variables without the one at `p` in `w`, if any.
    pub open spec fn variables_without(&self, w: Seq<char>, p: Seq<char>) -> Seq<Variable> {
        if self.has_variable(w, p) {
            self.variables@.remove(self.variable_index(w, p))
        } else {
            self.variables@
        }
    }

    /// The resources without the one at `p` in `w`, if any.
    pub open spec fn resources_without(&self, w: Seq<char>, p: Seq<char>) -> Seq<Resource> {
        if self.has_resource(w, p) {
            self.resources@.remove(self.resource_index(w, p))
        } else {
            self.resources@
        }
    }

    /// `n` holds the same contents as `self`.
    pub open spec fn same_contents(&self, n: &Store) -> bool {
        &&& n.same_config(self)
        &&& n.variables@ == self.variables@
        &&& n.resources@ == self.resources@
        &&& n.audit@ == self.audit@
        &&& n.notifications@ == self.notifications@
    }

    /// `n` is `self` after `user` deleted the variable and the resource at `p`
    /// in `w`: an audit record and a notification come only when one existed.
    pub open spec fn delete_effect(&self, n: &Store, user: Seq<char>, w: Seq<char>, p: Seq<char>) -> bool {
        &&& n.same_config(self)
        &&& n.variables@ == self.variables_without(w, p)
        &&& n.resources@ == self.resources_without(w, p)
        &&& if self.has_variable(w, p) || self.has_resource(w, p) {
            &&& n.audit@.len() > 0
        &&& n.audit@.drop_last() == self.audit@
            &&& audit_is(n.audit@.last(), user, "variables.delete"@, ActionKind::Delete, w, p)
            &&& n.notifications@.len() > 0
        &&& n.notifications@.drop_last() == self.notifications@
            &&& n.notifications@.last() matches Notification::DeleteVariable { workspace, path }
                && workspace@ == w && path@ == p
        } else {
            n.audit@ == self.audit@ && n.notifications@ == self.notifications@
        }
    }

    /// Deletes the variable at `path` in `w_id` and the resource at the same
    /// path; deleting what is not there succeeds and changes nothing.
    pub fn delete_variable(&mut self, username: &str, w_id: &str, path: &str) -> (r: Result<String, Error>)
        requires
            old(self).wf(),
        ensures
            final(self).wf(),
            r is Ok,
            r->Ok_0@ == "variable "@ + path@ + " deleted"@,
            old(self).delete_effect(final(self), username@, w_id@, path@),
            !old(self).has_variable(w_id@, path@) && !old(self).has_resource(w_id@, path@) ==> *final(self)
                == *old(self),
    {
        let msg = String::from_str("variable ").concat(path).concat(" deleted");
        let vi = self.find_variable(w_id, path);
        let ri = self.find_resource(w_id, path);
        if vi.is_none() && ri.is_none() {
            return Ok(msg);
        }
        let ghost old_vars = self.variables@;
        let ghost old_res = self.resources@;
        if let Some(i) = vi {
            self.variables.remove(i);
            proof {
                assert forall|a: int, b: int|
                    0 <= a < b < self.variables@.len() implies !var_is(
                    #[trigger] self.variables@[a],
                    self.variables@[b].workspace_id@,
                    #[trigger] self.variables@[b].path@,
                ) by {
                    let a0 = if a < i { a } else { a + 1 };
                    let b0 = if b < i { b } else { b + 1 };
                    assert(self.variables@[a] == old_vars[a0] && self.variables@[b] == old_vars[b0]);
                }
            }
        }
        if let Some(i) = ri {
            self.resources.remove(i);
            proof {
                assert forall|a: int, b: int|
                    0 <= a < b < self.resources@.len() implies !res_is(
                    #[trigger] self.resources@[a],
                    self.resources@[b].workspace_id@,
                    #[trigger] self.resources@[b].path@,
                ) by {
                    let a0 = if a < i { a } else { a + 1 };
                    let b0 = if b < i { b } else { b + 1 };
                    assert(self.resources@[a] == old_res[a0] && self.resources@[b] == old_res[b0]);
                }
            }
        }
        self.audit.push(
            AuditRecord {
                username: String::from_str(username),
                operation: String::from_str("variables.delete"),
                action: ActionKind::Delete,
                workspace_id: String::from_str(w_id),
                resource: String::from_str(path),
            },
        );
        self.notifications.push(
            Notification::DeleteVariable { workspace: String::from_str(w_id), path: String::from_str(path) },
        );
        proof {
            assert(self.audit@.drop_last() =~= old(self).audit@);
            assert(self.notifications@.drop_last() =~= old(self).notifications@);
        }
        Ok(msg)
    }

    /// `l` shows the variable `v` as it stands in this store at `now`, all
    /// but its value.
    pub open spec fn shows(&self, l: ListableVariable, v: Variable, now: i64) -> bool {
        &&& l.workspace_id@ == v.workspace_id@
        &&& l.path@ == v.path@
        &&& l.is_secret == v.is_secret
        &&& l.description@ == v.description@
        &&& l.account == v.account
        &&& l.is_oauth == v.is_oauth
        &&& l.is_linked == Some(self.has_resource(v.workspace_id@, v.path@))
        &&& if v.account is Some && self.has_account(v.account->Some_0) {
            let a = self.account(v.account->Some_0);
            &&& l.is_expired == Some(now > a.expires_at)
            &&& opt_view(l.refresh_error) == opt_view(a.refresh_error)
            &&& l.is_refreshed == Some(a.refresh_token@.len() > 0)
        } else {
            l.is_expired is None && l.refresh_error is None && l.is_refreshed is None
        }
    }

        /// `n` is `self` with one more audit record, of `user` decrypting `p` in `w`.
    pub open spec fn decrypt_audited(&self, n: &Store, user: Seq<char>, w: Seq<char>, p: Seq<char>) -> bool {
        &&& n.same_config(self)
        &&& n.variables == self.variables
        &&& n.resources == self.resources
        &&& n.notifications == self.notifications
        &&& n.audit@.len() > 0
        &&& n.audit@.drop_last() == self.audit@
        &&& audit_is(n.audit@.last(), user, "variables.decrypt_secret"@, ActionKind::Execute, w, p)
    }

    /// The variable at index `i`, as shown at `now`, with no value.
    fn listable(&self, i: usize, now: i64) -> (l: ListableVariable)
        requires
            self.wf(),
            i < self.variables@.len(),
        ensures
            self.shows(l, self.variables@[i as int], now),
            l.value is None,
    {
        let v = &self.variables[i];
        let linked = self.find_resource(v.workspace_id.as_str(), v.path.as_str()).is_some();
        let mut is_expired: Option<bool> = None;
        let mut refresh_error: Option<String> = None;
        let mut is_refreshed: Option<bool> = None;
        if let Some(id) = v.account {
            if let Some(k) = self.find_account(id) {
                let a = &self.accounts[k];
                is_expired = Some(now > a.expires_at);
                refresh_error = a.refresh_error.clone();
                is_refreshed = Some(!a.refresh_token.as_str().is_empty());
            }
        }
        ListableVariable {
            workspace_id: v.workspace_id.clone(),
            path: v.path.clone(),
            value: None,
            is_secret: v.is_secret,
            description: v.description.clone(),
            account: v.account,
            is_oauth: v.is_oauth,
            is_expired,
            refresh_error,
            is_linked: Some(linked),
            is_refreshed,
        }
    }

    /// Whether the token of the account of the variable at index `i` has
    /// expired at `now`.
    fn expired_at(&self, i: usize, now: i64) -> (r: bool)
        requires
            self.wf(),
            i < self.variables@.len(),
        ensures
            r == self.token_expired(self.variables@[i as int], now),
    {
        match self.variables[i].account {
            Some(id) => match self.find_account(id) {
                Some(k) => now > self.accounts[k].expires_at,
                None => false,
            },
            None => false,
        }
    }

    /// What reading the secret stored as `stored` in `w` yields: the empty
    /// string for an empty value, else its decryption under the workspace key.
    pub open spec fn secret_value(&self, w: Seq<char>, stored: Seq<char>) -> Result<Seq<char>, ErrorKind> {
        if stored.len() == 0 {
            Ok(Seq::empty())
        } else if self.key_material(w) is None {
            Err(ErrorKind::KeyNotFound)
        } else {
            match opened(self.cipher_key(w), stored) {
                Some(p) => Ok(p),
                None => Err(ErrorKind::DecryptionError),
            }
        }
    }

    /// Reads the secret stored in the variable at index `i`.
    fn decrypt_stored(&self, w_id: &str, i: usize) -> (r: Result<String, Error>)
        requires
            self.wf(),
            i < self.variables@.len(),
        ensures
            r is Ok ==> self.secret_value(w_id@, self.variables@[i as int].value@) == Ok::<
                Seq<char>,
                ErrorKind,
            >(r->Ok_0@),
            r is Err ==> self.secret_value(w_id@, self.variables@[i as int].value@) == Err::<
                Seq<char>,
                ErrorKind,
            >(r->Err_0.kind()),
            forall|p: Seq<char>|
                #[trigger] sealed(self.cipher_key(w_id@), p) == self.variables@[i as int].value@
                    && self.variables@[i as int].value@.len() > 0 && self.key_material(w_id@) is Some
                    ==> self.secret_value(w_id@, self.variables@[i as int].value@) == Ok::<
                    Seq<char>,
                    ErrorKind,
                >(p),
    {
        if self.variables[i].value.as_str().is_empty() {
            return Ok(String::new());
        }
        let mc = self.build_crypt(w_id)?;
        decrypt(&mc, self.variables[i].value.as_str())
    }

    /// Records that `username` decrypted the secret at `path` in `w_id`.
    fn record_decrypt(&mut self, username: &str, w_id: &str, path: &str)
        requires
            old(self).wf(),
        ensures
            final(self).wf(),
            old(self).decrypt_audited(final(self), username@, w_id@, path@),
    {
        self.audit.push(
            AuditRecord {
                username: String::from_str(username),
                operation: String::from_str("variables.decrypt_secret"),
                action: ActionKind::Execute,
                workspace_id: String::from_str(w_id),
                resource: String::from_str(path),
            },
        );
        proof {
            assert(self.audit@.drop_last() =~= old(self).audit@);
        }
    }

    /// Reads the variable at `path` in `w_id` for display at time `now`.
    /// A plain value is shown as stored; a secret is masked unless `decrypt`
    /// is set. A decrypted read is audited, and is served by a refreshed
    /// token when the variable's account token has expired, else by the
    /// decryption of the stored value.
    pub fn get_variable(&mut self, username: &str, w_id: &str, path: &str, decrypt: bool, now: i64) -> (r: Result<VariableOutcome, Error>)
        requires
            old(self).wf(),
        ensures
            final(self).wf(),
            (r is Err && r->Err_0 is NotFound) <==> !old(self).has_variable(w_id@, path@),
            r is Err ==> *final(self) == *old(self),
            old(self).has_variable(w_id@, path@) ==> {
                let v = old(self).variable(w_id@, path@);
                let key = old(self).cipher_key(w_id@);
                &&& (r is Ok && v.is_secret && decrypt && !old(self).token_expired(v, now)) ==> old(self).decrypt_audited(
                    final(self),
                    username@,
                    w_id@,
                    path@,
                )
                &&& !(v.is_secret && decrypt && !old(self).token_expired(v, now)) ==> *final(self) == *old(self)
                &&& !v.is_secret ==> (r matches Ok(VariableOutcome::Ready(l)) && old(self).shows(
                    l,
                    v,
                    now,
                ) && opt_view(l.value) == Some(v.value@))
                &&& v.is_secret && !decrypt ==> (r matches Ok(VariableOutcome::Ready(l))
                    && old(self).shows(l, v, now) && l.value is None)
                &&& v.is_secret && decrypt && old(self).token_expired(v, now) ==> (r matches Ok(
                    VariableOutcome::Refresh { variable, account },
                ) && account == v.account->Some_0 && old(self).shows(variable, v, now)
                    && variable.value is None)
                &&& v.is_secret && decrypt && !old(self).token_expired(v, now) ==> match r {
                    Ok(VariableOutcome::Ready(l)) => old(self).shows(l, v, now) && l.value is Some
                        && old(self).secret_value(w_id@, v.value@) == Ok::<Seq<char>, ErrorKind>(
                        l.value->Some_0@,
                    ),
                    Ok(VariableOutcome::Refresh { .. }) => false,
                    Err(e) => old(self).secret_value(w_id@, v.value@) == Err::<Seq<char>, ErrorKind>(
                        e.kind(),
                    ),
                }
                &&& v.is_secret && decrypt && !old(self).token_expired(v, now) ==> forall|p: Seq<char>|
                    #[trigger] sealed(key, p) == v.value@ && v.value@.len() > 0 && old(
                        self,
                    ).key_material(w_id@) is Some ==> old(self).secret_value(w_id@, v.value@)
                        == Ok::<Seq<char>, ErrorKind>(p)
            },
    {
        let i = not_found_if_none(self.find_variable(w_id, path), "Variable", path)?;
        let mut l = self.listable(i, now);
        if !self.variables[i].is_secret {
            l.value = Some(self.variables[i].value.clone());
            return Ok(VariableOutcome::Ready(l));
        }
        if !decrypt {
            return Ok(VariableOutcome::Ready(l));
        }
        let expired = self.expired_at(i, now);
        match (resolution(true, self.variables[i].account.is_some(), expired), self.variables[i].account) {
            (Resolution::LiveCredential, Some(account)) => {
                Ok(VariableOutcome::Refresh { variable: l, account })
            },
            _ => {
                let value = self.decrypt_stored(w_id, i)?;
                self.record_decrypt(username, w_id, path);
                l.value = Some(value);
                Ok(VariableOutcome::Ready(l))
            },
        }
    }

    /// The update `ns` moves the variable away from `p`.
    pub open spec fn renames(ns: &EditVariable, p: Seq<char>) -> bool {
        ns.path is Some && ns.path->Some_0@ != p
    }

    /// The path of the variable once `ns` is applied at `p`.
    pub open spec fn target_path(ns: &EditVariable, p: Seq<char>) -> Seq<char> {
        if Self::renames(ns, p) {
            ns.path->Some_0@
        } else {
            p
        }
    }

    /// Why updating the variable at `p` in `w` with `ns` fails, if it does:
    /// checks run in this order and none of them changes anything.
    pub open spec fn update_failure(
        &self,
        w: Seq<char>,
        p: Seq<char>,
        ns: &EditVariable,
        already_encrypted: bool,
        owns_path: bool,
    ) -> Option<ErrorKind> {
        let np = Self::target_path(ns, p);
        if !self.has_variable(w, p) {
            Some(ErrorKind::NotFound)
        } else if ns.is_secret is Some && ns.is_secret->Some_0 != self.variable(w, p).is_secret
            && ns.value is None {
            Some(ErrorKind::BadRequest)
        } else if Self::renames(ns, p) && (self.has_variable(w, np) || (self.has_resource(w, p)
            && self.has_resource(w, np))) {
            Some(ErrorKind::Conflict)
        } else if Self::renames(ns, p) && !owns_path {
            Some(ErrorKind::NotAuthorized)
        } else if ns.value is Some && (match ns.is_secret {
            Some(b) => b,
            None => self.variable(w, p).is_secret,
        }) && !already_encrypted && self.key_material(w) is None {
            Some(ErrorKind::KeyNotFound)
        } else {
            None
        }
    }

    /// `n` is `self` after `user` applied `ns` to the variable at `p` in `w`:
    /// the variable takes its new fields (its new value encrypted when it is
    /// to be a secret), and on a rename the resource at `p` moves along, its
    /// references to the old path rewritten to the new one.
    pub open spec fn update_effect(
        &self,
        n: &Store,
        user: Seq<char>,
        w: Seq<char>,
        p: Seq<char>,
        ns: &EditVariable,
        already_encrypted: bool,
    ) -> bool {
        let v = self.variable(w, p);
        let np = Self::target_path(ns, p);
        let secret = match ns.is_secret {
            Some(b) => b,
            None => v.is_secret,
        };
        let nv = n.variables@.last();
        &&& n.same_config(self)
        &&& n.variables@.len() > 0
        &&& n.variables@.drop_last() == self.variables_without(w, p)
        &&& var_is(nv, w, np)
        &&& nv.value@ == (match ns.value {
            Some(x) => self.stored_form(w, x@, secret, already_encrypted),
            None => v.value@,
        })
        &&& ns.value is Some && secret && !already_encrypted ==> nv.value@.len() > 0
        &&& nv.is_secret == secret
        &&& nv.description@ == (match ns.description {
            Some(d) => d@,
            None => v.description@,
        })
        &&& nv.account == v.account
        &&& nv.is_oauth == v.is_oauth
        &&& if Self::renames(ns, p) && self.has_resource(w, p) {
            let old_r = self.resources@[self.resource_index(w, p)];
            let new_r = n.resources@.last();
            &&& n.resources@.len() > 0
            &&& n.resources@.drop_last() == self.resources_without(w, p)
            &&& res_is(new_r, w, np)
            &&& match old_r.value {
                Some(d) => new_r.value is Some && is_rewrite(
                    d,
                    new_r.value->Some_0,
                    var_ref(p),
                    var_ref(np),
                ),
                None => new_r.value is None,
            }
        } else {
            n.resources@ == self.resources@
        }
        &&& n.audit@.len() > 0
        &&& n.audit@.drop_last() == self.audit@
        &&& audit_is(n.audit@.last(), user, "variables.update"@, ActionKind::Update, w, p)
        &&& n.notifications@.len() > 0
        &&& n.notifications@.drop_last() == self.notifications@
        &&& n.notifications@.last() matches Notification::UpdateVariable {
            workspace,
            old_path,
            new_path,
        } && workspace@ == w && old_path@ == p && new_path@ == np
    }

    /// Applies `ns` to the variable at `path` in `w_id` as one atomic step.
    /// `owns_path` tells whether the acting user may move the variable away
    /// from `path`.
    pub fn update_variable(
        &mut self,
        username: &str,
        w_id: &str,
        path: &str,
        ns: EditVariable,
        already_encrypted: bool,
        owns_path: bool,
    ) -> (r: Result<String, Error>)
        requires
            old(self).wf(),
        ensures
            final(self).wf(),
            r is Err <==> old(self).update_failure(w_id@, path@, &ns, already_encrypted, owns_path) is Some,
            r is Err ==> *final(self) == *old(self) && Some(r->Err_0.kind()) == old(self).update_failure(
                w_id@,
                path@,
                &ns,
                already_encrypted,
                owns_path,
            ),
            r is Ok ==> old(self).update_effect(final(self), username@, w_id@, path@, &ns, already_encrypted),
            r is Ok ==> r->Ok_0@ == "variable "@ + path@ + " updated (npath: \""@ + Self::target_path(
                &ns,
                path@,
            ) + "\")"@,
    {
        let i = not_found_if_none(self.find_variable(w_id, path), "Variable", path)?;
        let cur_secret = self.variables[i].is_secret;
        if let Some(nb) = ns.is_secret {
            if nb != cur_secret && ns.value.is_none() {
                return Err(Error::BadRequest(String::from_str("cannot change is_secret without updating value too")));
            }
        }
        let p_str = String::from_str(path);
        let rename_to: Option<String> = match &ns.path {
            Some(np) => if *np == p_str {
                None
            } else {
                Some(np.clone())
            },
            None => None,
        };
        let ri = self.find_resource(w_id, path);
        if let Some(np) = &rename_to {
            self.check_path_conflict(w_id, np.as_str())?;
            if ri.is_some() && self.find_resource(w_id, np.as_str()).is_some() {
                return Err(Error::Conflict(String::from_str("Resource ").concat(np.as_str()).concat(" already exists")));
            }
            if !owns_path {
                return Err(Error::NotAuthorized(String::from_str("not the owner of ").concat(path)));
            }
        }
        let secret = match ns.is_secret {
            Some(b) => b,
            None => cur_secret,
        };
        let new_value: Option<String> = match ns.value {
            Some(nv) => if secret && !already_encrypted {
                let mc = self.build_crypt(w_id)?;
                Some(encrypt(&mc, nv.as_str()))
            } else {
                Some(nv)
            },
            None => None,
        };
        let target = match &rename_to {
            Some(np) => np.clone(),
            None => p_str.clone(),
        };
        let msg = String::from_str("variable ").concat(path).concat(" updated (npath: \"").concat(
            target.as_str(),
        ).concat("\")");

        let ghost s0 = *self;
        let old_var = self.variables.remove(i);
        let nvar = Variable {
            workspace_id: old_var.workspace_id,
            path: target.clone(),
            value: match new_value {
                Some(x) => x,
                None => old_var.value,
            },
            is_secret: secret,
            description: match ns.description {
                Some(d) => d,
                None => old_var.description,
            },
            account: old_var.account,
            is_oauth: old_var.is_oauth,
        };
        self.variables.push(nvar);
        proof {
            assert(self.variables@.drop_last() =~= s0.variables@.remove(i as int));
            assert forall|a: int, b: int|
                0 <= a < b < self.variables@.len() implies !var_is(
                #[trigger] self.variables@[a],
                self.variables@[b].workspace_id@,
                #[trigger] self.variables@[b].path@,
            ) by {
                let a0 = if a < i { a } else { a + 1 };
                if b == self.variables@.len() - 1 {
                    assert(self.variables@[a] == s0.variables@[a0]);
                    if !Self::renames(&ns, path@) {
                        assert(!var_is(s0.variables@[a0], w_id@, path@)) by {
                            if a0 < i {
                                assert(!var_is(s0.variables@[a0], s0.variables@[i as int].workspace_id@, s0.variables@[i as int].path@));
                            } else {
                                assert(!var_is(s0.variables@[i as int], s0.variables@[a0].workspace_id@, s0.variables@[a0].path@));
                            }
                        }
                    }
                } else {
                    let b0 = if b < i { b } else { b + 1 };
                    assert(self.variables@[a] == s0.variables@[a0] && self.variables@[b] == s0.variables@[b0]);
                }
            }
        }
        if let Some(np) = &rename_to {
            if let Some(k) = ri {
                let res = self.resources.remove(k);
                let from = String::from_str("$var:").concat(path);
                let to = String::from_str("$var:").concat(np.as_str());
                let value = match res.value {
                    Some(d) => Some(replace_path(d, from.as_str(), to.as_str())),
                    None => None,
                };
                self.resources.push(Resource { workspace_id: res.workspace_id, path: np.clone(), value });
                proof {
                    assert(self.resources@.drop_last() =~= s0.resources@.remove(k as int));
                    assert forall|a: int, b: int|
                        0 <= a < b < self.resources@.len() implies !res_is(
                        #[trigger] self.resources@[a],
                        self.resources@[b].workspace_id@,
                        #[trigger] self.resources@[b].path@,
                    ) by {
                        let a0 = if a < k { a } else { a + 1 };
                        assert(self.resources@[a] == s0.resources@[a0]);
                        if b < self.resources@.len() - 1 {
                            let b0 = if b < k { b } else { b + 1 };
                            assert(self.resources@[b] == s0.resources@[b0]);
                        }
                    }
                }
            }
        }
        self.audit.push(
            AuditRecord {
                username: String::from_str(username),
                operation: String::from_str("variables.update"),
                action: ActionKind::Update,
                workspace_id: String::from_str(w_id),
                resource: String::from_str(path),
            },
        );
        self.notifications.push(
            Notification::UpdateVariable { workspace: String::from_str(w_id), old_path: p_str, new_path: target },
        );
        proof {
            assert(self.audit@.drop_last() =~= s0.audit@);
            assert(self.notifications@.drop_last() =~= s0.notifications@);
        }
        Ok(msg)
    }

    /// Resolves the value of the variable at `path` in `w_id` at time `now`,
    /// for a caller that needs the usable value: a plain value as stored; for
    /// a secret (audited) a refreshed token when its account token has
    /// expired, else the decryption of the stored value.
    pub fn get_value_internal(&mut self, username: &str, w_id: &str, path: &str, now: i64) -> (r: Result<ValueOutcome, Error>)
        requires
            old(self).wf(),
        ensures
            final(self).wf(),
            (r is Err && r->Err_0 is NotFound) <==> !old(self).has_variable(w_id@, path@),
            r is Err ==> *final(self) == *old(self),
            old(self).has_variable(w_id@, path@) ==> {
                let v = old(self).variable(w_id@, path@);
                let key = old(self).cipher_key(w_id@);
                &&& (r is Ok && v.is_secret && !old(self).token_expired(v, now)) ==> old(self).decrypt_audited(final(self), username@, w_id@, path@)
                &&& !(v.is_secret && !old(self).token_expired(v, now)) ==> *final(self) == *old(self)
                &&& !v.is_secret ==> (r matches Ok(ValueOutcome::Ready(x)) && x@ == v.value@)
                &&& v.is_secret && old(self).token_expired(v, now) ==> r == Ok::<ValueOutcome, Error>(
                    ValueOutcome::Refresh(v.account->Some_0),
                )
                &&& v.is_secret && !old(self).token_expired(v, now) ==> match r {
                    Ok(ValueOutcome::Ready(x)) => old(self).secret_value(w_id@, v.value@) == Ok::<Seq<char>, ErrorKind>(x@),
                    Ok(ValueOutcome::Refresh(_)) => false,
                    Err(e) => old(self).secret_value(w_id@, v.value@) == Err::<Seq<char>, ErrorKind>(e.kind()),
                }
                &&& v.is_secret && !old(self).token_expired(v, now) ==> forall|p: Seq<char>|
                    #[trigger] sealed(key, p) == v.value@ && v.value@.len() > 0 && old(self).key_material(w_id@) is Some
                        ==> old(self).secret_value(w_id@, v.value@) == Ok::<Seq<char>, ErrorKind>(p)
            },
    {
        let i = not_found_if_none(self.find_variable(w_id, path), "Variable", path)?;
        if !self.variables[i].is_secret {
            return Ok(ValueOutcome::Ready(self.variables[i].value.clone()));
        }
        let expired = self.expired_at(i, now);
        match (resolution(true, self.variables[i].account.is_some(), expired), self.variables[i].account) {
            (Resolution::LiveCredential, Some(account)) => {
                Ok(ValueOutcome::Refresh(account))
            },
            _ => {
                let value = self.decrypt_stored(w_id, i)?;
                self.record_decrypt(username, w_id, path);
                Ok(ValueOutcome::Ready(value))
            },
        }
    }

    /// Completes a read by `username` that asked for a refresh of `account`'s
    /// token for the variable at `path` in `w_id`, as one atomic step. A new
    /// token is persisted (encrypted when the variable is a secret), with its
    /// expiry, the decryption is audited, and the token is returned. A failed
    /// refresh fails `RefreshError` and, like every failure here, changes
    /// nothing.
    pub fn complete_refresh(
        &mut self,
        username: &str,
        w_id: &str,
        path: &str,
        account: i64,
        outcome: Result<RefreshedToken, String>,
    ) -> (r: Result<String, Error>)
        requires
            old(self).wf(),
        ensures
            final(self).wf(),
            final(self).keys == old(self).keys,
            final(self).salt == old(self).salt,
            final(self).resources == old(self).resources,
            final(self).notifications == old(self).notifications,
            final(self).accounts@.len() == old(self).accounts@.len(),
            r is Err ==> *final(self) == *old(self),
            (r is Err && r->Err_0 is NotFound) <==> (!old(self).has_variable(w_id@, path@)
                || !old(self).has_account(account)),
            (old(self).has_variable(w_id@, path@) && old(self).has_account(account)) ==> {
                let v = old(self).variable(w_id@, path@);
                match outcome {
                    Ok(t) => if v.is_secret && old(self).key_material(w_id@) is None {
                        r is Err && r->Err_0 is KeyNotFound && *final(self) == *old(self)
                    } else {
                        &&& r is Ok && r->Ok_0@ == t.access_token@
                        &&& final(self).audit@.len() > 0
                        &&& final(self).audit@.drop_last() == old(self).audit@
                        &&& audit_is(
                            final(self).audit@.last(),
                            username@,
                            "variables.decrypt_secret"@,
                            ActionKind::Execute,
                            w_id@,
                            path@,
                        )
                        &&& final(self).account(account).expires_at == t.expires_at
                        &&& final(self).account(account).refresh_error is None
                        &&& final(self).account(account).refresh_token == old(self).account(account).refresh_token
                        &&& final(self).variables@.drop_last() == old(self).variables_without(w_id@, path@)
                        &&& var_is(final(self).variables@.last(), w_id@, path@)
                        &&& final(self).variables@.last().value@ == old(self).stored_form(w_id@, t.access_token@, v.is_secret, false)
                        &&& final(self).variables@.last().is_secret == v.is_secret
                        &&& final(self).variables@.last().description == v.description
                        &&& final(self).variables@.last().account == v.account
                        &&& final(self).variables@.last().is_oauth == v.is_oauth
                    },
                    Err(m) => {
                        &&& r is Err
                        &&& (r->Err_0 matches Error::RefreshError(e) && e@ == m@)
                    },
                }
            },
    {
        let i = not_found_if_none(self.find_variable(w_id, path), "Variable", path)?;
        let k = match self.find_account(account) {
            Some(k) => k,
            None => return Err(Error::NotFound(String::from_str("Account not found"))),
        };
        let ghost s0 = *self;
        match outcome {
            Ok(t) => {
                let stored = if self.variables[i].is_secret {
                    let mc = self.build_crypt(w_id)?;
                    encrypt(&mc, t.access_token.as_str())
                } else {
                    t.access_token.clone()
                };
                let old_var = self.variables.remove(i);
                self.variables.push(
                    Variable {
                        workspace_id: old_var.workspace_id,
                        path: old_var.path,
                        value: stored,
                        is_secret: old_var.is_secret,
                        description: old_var.description,
                        account: old_var.account,
                        is_oauth: old_var.is_oauth,
                    },
                );
                proof {
                    assert(self.variables@.drop_last() =~= s0.variables@.remove(i as int));
                    assert forall|a: int, b: int|
                        0 <= a < b < self.variables@.len() implies !var_is(
                        #[trigger] self.variables@[a],
                        self.variables@[b].workspace_id@,
                        #[trigger] self.variables@[b].path@,
                    ) by {
                        let a0 = if a < i { a } else { a + 1 };
                        assert(self.variables@[a] == s0.variables@[a0]);
                        if b == self.variables@.len() - 1 {
                            if a0 < i {
                                assert(!var_is(s0.variables@[a0], s0.variables@[i as int].workspace_id@, s0.variables@[i as int].path@));
                            } else {
                                assert(!var_is(s0.variables@[i as int], s0.variables@[a0].workspace_id@, s0.variables@[a0].path@));
                            }
                        } else {
                            let b0 = if b < i { b } else { b + 1 };
                            assert(self.variables@[b] == s0.variables@[b0]);
                        }
                    }
                }
                let a = Account {
                    id: self.accounts[k].id,
                    workspace_id: self.accounts[k].workspace_id.clone(),
                    expires_at: t.expires_at,
                    refresh_token: self.accounts[k].refresh_token.clone(),
                    refresh_error: None,
                };
                self.accounts.set(k, a);
                proof {
                    self.lemma_account_at(k as int);
                }
                self.record_decrypt(username, w_id, path);
                Ok(t.access_token)
            },
            Err(m) => {
                Err(Error::RefreshError(m))
            },
        }
    }

    /// Under unique ids, the account at position `k` is the account of its id.
    pub proof fn lemma_account_at(&self, k: int)
        requires
            self.wf(),
            0 <= k < self.accounts@.len(),
        ensures
            self.has_account(self.accounts@[k].id),
            self.account(self.accounts@[k].id) == self.accounts@[k],
    {
        let id = self.accounts@[k].id;
        assert(self.has_account(id));
        let j = choose|j: int| 0 <= j < self.accounts@.len() && (#[trigger] self.accounts@[j]).id == id;
        if j < k {
            assert(self.accounts@[j].id != self.accounts@[k].id);
        } else if j > k {
            assert(self.accounts@[k].id != self.accounts@[j].id);
        }
    }

    /// An empty store, with the process-wide salt, if any.
    pub fn new(salt: Option<String>) -> (r: Store)
        ensures
            r.wf(),
            r.salt == salt,
            r.keys@.len() == 0,
            r.variables@.len() == 0,
            r.resources@.len() == 0,
            r.accounts@.len() == 0,
            r.audit@.len() == 0,
            r.notifications@.len() == 0,
    {
        Store {
            keys: Vec::new(),
            salt,
            variables: Vec::new(),
            resources: Vec::new(),
            accounts: Vec::new(),
            audit: Vec::new(),
            notifications: Vec::new(),
        }
    }

    /// Provisions the key material of `w_id`, replacing any earlier one.
    pub fn set_workspace_key(&mut self, w_id: &str, key: &str)
        requires
            old(self).wf(),
        ensures
            final(self).wf(),
            final(self).key_material(w_id@) == Some(key@),
            forall|w: Seq<char>| w != w_id@ ==> final(self).key_material(w) == old(self).key_material(w),
            final(self).salt == old(self).salt,
            final(self).variables == old(self).variables,
            final(self).resources == old(self).resources,
            final(self).accounts == old(self).accounts,
            final(self).audit == old(self).audit,
            final(self).notifications == old(self).notifications,
    {
        let w = String::from_str(w_id);
        let ghost k0 = self.keys@;
        let mut i: usize = 0;
        while i < self.keys.len()
            invariant
                self.keys@ == k0,
                i <= k0.len(),
                w@ == w_id@,
                forall|j: int| 0 <= j < i ==> (#[trigger] k0[j]).workspace_id@ != w_id@,
            ensures
                i <= k0.len(),
                i < k0.len() ==> k0[i as int].workspace_id@ == w_id@,
                forall|j: int| 0 <= j < i ==> (#[trigger] k0[j]).workspace_id@ != w_id@,
            decreases k0.len() - i,
        {
            if self.keys[i].workspace_id == w {
                break;
            }
            i = i + 1;
        }
        let entry = WorkspaceKey { workspace_id: w, key: String::from_str(key) };
        if i < self.keys.len() {
            self.keys.set(i, entry);
        } else {
            self.keys.push(entry);
        }
        proof {
            let n = self.keys@;
            assert forall|a: int, b: int| 0 <= a < b < n.len() implies (#[trigger] n[a]).workspace_id@
                != (#[trigger] n[b]).workspace_id@ by {
                if i < k0.len() {
                    if a != i && b != i {
                        assert(n[a] == k0[a] && n[b] == k0[b]);
                    } else if a == i {
                        assert(k0[a].workspace_id@ == w_id@);
                        assert(n[b] == k0[b]);
                        assert(k0[a].workspace_id@ != k0[b].workspace_id@);
                    } else {
                        assert(n[a] == k0[a]);
                    }
                } else if b == k0.len() {
                    assert(n[a] == k0[a]);
                } else {
                    assert(n[a] == k0[a] && n[b] == k0[b]);
                }
            }
            assert(0 <= i < n.len() && n[i as int].workspace_id@ == w_id@);
            let c = choose|c: int| 0 <= c < n.len() && (#[trigger] n[c]).workspace_id@ == w_id@;
            if c != i {
                if c < i {
                    assert(n[c].workspace_id@ != n[i as int].workspace_id@);
                } else {
                    assert(n[i as int].workspace_id@ != n[c].workspace_id@);
                }
            }
            assert forall|x: Seq<char>| x != w_id@ implies self.key_material(x) == old(self).key_material(x) by {
                assert forall|j: int| 0 <= j < n.len() && (#[trigger] n[j]).workspace_id@ == x implies
                    j < k0.len() && n[j] == k0[j] by {}
                assert forall|j: int| 0 <= j < k0.len() && (#[trigger] k0[j]).workspace_id@ == x implies
                    n[j] == k0[j] by {}
            }
        }
    }

    /// Adds an account; fails `Conflict` when one with its id exists.
    pub fn add_account(&mut self, account: Account) -> (r: Result<(), Error>)
        requires
            old(self).wf(),
        ensures
            final(self).wf(),
            r is Err <==> old(self).has_account(account.id),
            r is Err ==> *final(self) == *old(self),
            r is Ok ==> final(self).accounts@ == old(self).accounts@.push(account),
            final(self).keys == old(self).keys,
            final(self).salt == old(self).salt,
            final(self).variables == old(self).variables,
            final(self).resources == old(self).resources,
            final(self).audit == old(self).audit,
            final(self).notifications == old(self).notifications,
    {
        if self.find_account(account.id).is_some() {
            return Err(Error::Conflict(String::from_str("Account already exists")));
        }
        let ghost a0 = self.accounts@;
        self.accounts.push(account);
        proof {
            assert forall|a: int, b: int| 0 <= a < b < self.accounts@.len() implies (
            #[trigger] self.accounts@[a]).id != (#[trigger] self.accounts@[b]).id by {
                if b == a0.len() {
                    assert(self.accounts@[a] == a0[a]);
                } else {
                    assert(self.accounts@[a] == a0[a] && self.accounts@[b] == a0[b]);
                }
            }
        }
        Ok(())
    }

    /// Adds a resource at `path` in `w_id`; fails `Conflict` when one is there.
    pub fn add_resource(&mut self, w_id: &str, path: &str, value: Option<Doc>) -> (r: Result<(), Error>)
        requires
            old(self).wf(),
        ensures
            final(self).wf(),
            r is Err <==> old(self).has_resource(w_id@, path@),
            r is Err ==> *final(self) == *old(self),
            r is Ok ==> final(self).resources@.drop_last() == old(self).resources@ && res_is(
                final(self).resources@.last(),
                w_id@,
                path@,
            ) && final(self).resources@.last().value == value,
            final(self).keys == old(self).keys,
            final(self).salt == old(self).salt,
            final(self).variables == old(self).variables,
            final(self).accounts == old(self).accounts,
            final(self).audit == old(self).audit,
            final(self).notifications == old(self).notifications,
    {
        if self.find_resource(w_id, path).is_some() {
            return Err(Error::Conflict(String::from_str("Resource ").concat(path).concat(" already exists")));
        }
        let ghost r0 = self.resources@;
        self.resources.push(Resource { workspace_id: String::from_str(w_id), path: String::from_str(path), value });
        proof {
            assert(self.resources@.drop_last() =~= r0);
            assert forall|a: int, b: int|
                0 <= a < b < self.resources@.len() implies !res_is(
                #[trigger] self.resources@[a],
                self.resources@[b].workspace_id@,
                #[trigger] self.resources@[b].path@,
            ) by {
                if b == r0.len() {
                    assert(self.resources@[a] == r0[a]);
                    assert(!res_is(r0[a], w_id@, path@));
                } else {
                    assert(self.resources@[a] == r0[a] && self.resources@[b] == r0[b]);
                }
            }
        }
        Ok(())
    }

    /// `l` is a row of the listing of `w` at `now`: it shows a variable of `w`.
    pub open spec fn lists(&self, l: ListableVariable, w: Seq<char>, now: i64) -> bool {
        exists|j: int|
            0 <= j < self.variables@.len() && (#[trigger] self.variables@[j]).workspace_id@ == w
                && self.shows(l, self.variables@[j], now) && listed_value(l, self.variables@[j])
    }

    /// The variables of `w_id`, sorted by path, as a listing shows them at
    /// `now`: secrets without their value.
    pub fn list_variables(&self, w_id: &str, now: i64) -> (r: Vec<ListableVariable>)
        requires
            self.wf(),
        ensures
            forall|k: int, l: int| 0 <= k < l < r@.len() ==> lex_lt(#[trigger] r@[k].path@, #[trigger] r@[l].path@),
            forall|k: int| 0 <= k < r@.len() ==> self.lists(#[trigger] r@[k], w_id@, now),
            forall|j: int|
                0 <= j < self.variables@.len() && (#[trigger] self.variables@[j]).workspace_id@ == w_id@
                    ==> exists|k: int| 0 <= k < r@.len() && (#[trigger] r@[k]).path@ == self.variables@[j].path@,
    {
        let w = String::from_str(w_id);
        let mut out: Vec<ListableVariable> = Vec::new();
        let ghost mut idx: Seq<int> = Seq::empty();
        let mut i: usize = 0;
        while i < self.variables.len()
            invariant
                self.wf(),
                i <= self.variables@.len(),
                w@ == w_id@,
                out@.len() == idx.len(),
                forall|k: int|
                    0 <= k < idx.len() ==> 0 <= #[trigger] idx[k] < i && self.variables@[idx[k]].workspace_id@ == w_id@
                        && self.shows(out@[k], self.variables@[idx[k]], now)
                        && listed_value(out@[k], self.variables@[idx[k]]),
                forall|j: int|
                    0 <= j < i && (#[trigger] self.variables@[j]).workspace_id@ == w_id@ ==> exists|k: int|
                        0 <= k < idx.len() && idx[k] == j,
                forall|k: int, l: int| 0 <= k < l < out@.len() ==> lex_lt(#[trigger] out@[k].path@, #[trigger] out@[l].path@),
            decreases self.variables@.len() - i,
        {
            if self.variables[i].workspace_id == w {
                let mut row = self.listable(i, now);
                if !self.variables[i].is_secret {
                    row.value = Some(self.variables[i].value.clone());
                }
                let ghost x = self.variables@[i as int].path@;
                let pos = insertion_point(&out, self.variables[i].path.as_str());
                let ghost old_out = out@;
                let ghost old_idx = idx;
                proof {
                    // rows before `pos` come before the new one: their paths differ from it
                    assert forall|k: int| 0 <= k < pos implies lex_lt(#[trigger] old_out[k].path@, x) by {
                        let j = old_idx[k];
                        assert(j < i);
                        assert(!var_is(self.variables@[j], self.variables@[i as int].workspace_id@, self.variables@[i as int].path@));
                        assert(old_out[k].path@ == self.variables@[j].path@);
                        lemma_lex_total(old_out[k].path@, x);
                    }
                }
                out.insert(pos, row);
                proof {
                    idx = old_idx.insert(pos as int, i as int);
                    let n = out@;
                    assert forall|k: int, l: int| 0 <= k < l < n.len() implies lex_lt(#[trigger] n[k].path@, #[trigger] n[l].path@) by {
                        if l < pos {
                            assert(n[k] == old_out[k] && n[l] == old_out[l]);
                        } else if l == pos {
                            assert(n[k] == old_out[k]);
                        } else if k == pos {
                            assert(n[l] == old_out[l - 1]);
                                if l - 1 > pos {
                                lemma_lex_trans(x, old_out[pos as int].path@, old_out[l - 1].path@);
                            }
                        } else if k < pos {
                            assert(n[k] == old_out[k] && n[l] == old_out[l - 1]);
                        } else {
                            assert(n[k] == old_out[k - 1] && n[l] == old_out[l - 1]);
                        }
                    }
                    assert forall|k: int| 0 <= k < idx.len() implies 0 <= #[trigger] idx[k] < i + 1
                        && self.variables@[idx[k]].workspace_id@ == w_id@
                        && self.shows(out@[k], self.variables@[idx[k]], now)
                        && listed_value(out@[k], self.variables@[idx[k]]) by {
                        if k < pos {
                            assert(idx[k] == old_idx[k] && n[k] == old_out[k]);
                        } else if k > pos {
                            assert(idx[k] == old_idx[k - 1] && n[k] == old_out[k - 1]);
                        }
                    }
                    assert forall|j: int| 0 <= j < i + 1 && (#[trigger] self.variables@[j]).workspace_id@ == w_id@
                        implies exists|k: int| 0 <= k < idx.len() && idx[k] == j by {
                        if j == i {
                            assert(idx[pos as int] == j);
                        } else {
                            let k0 = choose|k: int| 0 <= k < old_idx.len() && old_idx[k] == j;
                            if k0 < pos {
                                assert(idx[k0] == j);
                            } else {
                                assert(idx[k0 + 1] == j);
                            }
                        }
                    }
                }
            }
            i = i + 1;
        }
        proof {
            assert forall|k: int| 0 <= k < out@.len() implies self.lists(#[trigger] out@[k], w_id@, now) by {
                let j = idx[k];
                assert(self.variables@[j].workspace_id@ == w_id@);
            }
            assert forall|j: int| 0 <= j < self.variables@.len() && (#[trigger] self.variables@[j]).workspace_id@ == w_id@
                implies exists|k: int| 0 <= k < out@.len() && (#[trigger] out@[k]).path@ == self.variables@[j].path@ by {
                let k = choose|k: int| 0 <= k < idx.len() && idx[k] == j;
                assert(out@[k].path@ == self.variables@[j].path@);
            }
        }
        out
    }
}

/// Deleting twice in a row leaves the store as deleting once did: after the
/// first delete nothing is at the path, so the second one has no effect.
pub proof fn lemma_delete_idempotent(
    s0: Store,
    s1: Store,
    s2: Store,
    user: Seq<char>,
    w: Seq<char>,
    p: Seq<char>,
)
    requires
        s0.wf(),
        s0.delete_effect(&s1, user, w, p),
        s1.delete_effect(&s2, user, w, p),
    ensures
        !s1.has_variable(w, p),
        !s1.has_resource(w, p),
        s1.same_contents(&s2),
{
    if s0.has_variable(w, p) {
        let k = s0.variable_index(w, p);
        if s1.has_variable(w, p) {
            let j = s1.variable_index(w, p);
            let j0 = if j < k { j } else { j + 1 };
            assert(s1.variables@[j] == s0.variables@[j0]);
            if j0 < k {
                assert(!var_is(s0.variables@[j0], s0.variables@[k].workspace_id@, s0.variables@[k].path@));
            } else {
                assert(!var_is(s0.variables@[k], s0.variables@[j0].workspace_id@, s0.variables@[j0].path@));
            }
        }
    }
    if s0.has_resource(w, p) {
        let k = s0.resource_index(w, p);
        if s1.has_resource(w, p) {
            let j = s1.resource_index(w, p);
            let j0 = if j < k { j } else { j + 1 };
            assert(s1.resources@[j] == s0.resources@[j0]);
            if j0 < k {
                assert(!res_is(s0.resources@[j0], s0.resources@[k].workspace_id@, s0.resources@[k].path@));
            } else {
                assert(!res_is(s0.resources@[k], s0.resources@[j0].workspace_id@, s0.resources@[j0].path@));
            }
        }
    }
}

/// Once a create at a path has succeeded, the path is taken: any other
/// create at the same workspace and path fails `Conflict`, so of two creates
/// at one path exactly one succeeds.
pub proof fn lemma_create_claims_path(
    s0: Store,
    s1: Store,
    user: Seq<char>,
    w: Seq<char>,
    c: CreateVariable,
    already_encrypted: bool,
    other: CreateVariable,
)
    requires
        s0.create_effect(&s1, user, w, &c, already_encrypted),
        other.path@ == c.path@,
    ensures
        s1.has_variable(w, other.path@),
{
    assert(var_is(s1.variables@[s1.variables@.len() - 1], w, c.path@));
}

/// Flipping the secrecy of a variable without a new value is refused with
/// `BadRequest`.
pub proof fn lemma_secrecy_flip_guard(
    s: Store,
    w: Seq<char>,
    p: Seq<char>,
    ns: EditVariable,
    already_encrypted: bool,
    owns_path: bool,
)
    requires
        s.has_variable(w, p),
        ns.is_secret == Some(!s.variable(w, p).is_secret),
        ns.value is None,
    ensures
        s.update_failure(w, p, &ns, already_encrypted, owns_path) == Some(ErrorKind::BadRequest),
{
}

/// After an update that makes a variable a secret with a new value `x`, the
/// variable holds the non-empty encryption of `x` under the workspace key,
/// which a decrypting read resolves back to `x`.
pub proof fn lemma_secret_update_readable(
    s0: Store,
    s1: Store,
    user: Seq<char>,
    w: Seq<char>,
    p: Seq<char>,
    ns: EditVariable,
)
    requires
        s0.wf(),
        s1.wf(),
        s0.update_failure(w, p, &ns, false, true) is None,
        s0.update_effect(&s1, user, w, p, &ns, false),
        ns.is_secret == Some(true),
        ns.value is Some,
    ensures
        ({
            let np = Store::target_path(&ns, p);
            let v = s1.variable(w, np);
            &&& s1.has_variable(w, np)
            &&& v.is_secret
            &&& s1.key_material(w) is Some
            &&& v.value@ == sealed(s1.cipher_key(w), ns.value->Some_0@)
            &&& v.value@.len() > 0
        }),
{
    let np = Store::target_path(&ns, p);
    let last = s1.variables@.len() - 1;
    assert(var_is(s1.variables@[last], w, np));
    assert(s1.has_variable(w, np));
    let j = s1.variable_index(w, np);
    if j != last {
        assert(!var_is(s1.variables@[j], s1.variables@[last].workspace_id@, s1.variables@[last].path@));
    }
}

/// Renaming a variable moves the resource at its old path to the new one and
/// rewrites the document's references: none to the old path remains, and it
/// refers to the new path wherever it referred to the old one.
pub proof fn lemma_rename_moves_resource(
    s0: Store,
    s1: Store,
    user: Seq<char>,
    w: Seq<char>,
    p: Seq<char>,
    ns: EditVariable,
    already_encrypted: bool,
)
    requires
        s0.wf(),
        s0.update_effect(&s1, user, w, p, &ns, already_encrypted),
        Store::renames(&ns, p),
        s0.has_resource(w, p),
    ensures
        ({
            let np = Store::target_path(&ns, p);
            let before = s0.resources@[s0.resource_index(w, p)];
            let after = s1.resources@.last();
            &&& res_is(after, w, np)
            &&& !s1.has_resource(w, p)
            &&& before.value is Some ==> after.value is Some && !holds_string(
                after.value->Some_0,
                var_ref(p),
            ) && (holds_string(before.value->Some_0, var_ref(p)) ==> holds_string(
                after.value->Some_0,
                var_ref(np),
            ))
        }),
{
    let np = Store::target_path(&ns, p);
    let k = s0.resource_index(w, p);
    let before = s0.resources@[k];
    let after = s1.resources@.last();
    if before.value is Some {
        lemma_rename_propagation(before.value->Some_0, after.value->Some_0, p, np);
    }
    if s1.has_resource(w, p) {
        let j = s1.resource_index(w, p);
        assert(0 <= k < s0.resources@.len());
        assert(s0.resources_without(w, p) == s0.resources@.remove(k));
        if j < s1.resources@.len() - 1 {
            let j0 = if j < k { j } else { j + 1 };
            assert(s1.resources@.drop_last() == s0.resources_without(w, p));
            assert(s1.resources@[j] == s1.resources@.drop_last()[j]);
            assert(s1.resources@.drop_last().len() == s1.resources@.len() - 1);
            assert(s0.resources@.remove(k).len() == s0.resources@.len() - 1);
            assert(0 <= j < s0.resources@.remove(k).len());
            assert(s0.resources@.remove(k)[j] == s0.resources@[j0]);
            assert(s1.resources@[j] == s0.resources@[j0]);
            if j0 < k {
                assert(!res_is(s0.resources@[j0], s0.resources@[k].workspace_id@, s0.resources@[k].path@));
            } else {
                assert(!res_is(s0.resources@[k], s0.resources@[j0].workspace_id@, s0.resources@[j0].path@));
            }
        }
    }
}

} // verus!
