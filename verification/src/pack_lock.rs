//! The canonical pack lock (`pack.lock.json`, v1): its validation rules and the
//! deterministic order in which it is written.

use vstd::prelude::*;
use vstd::string::*;
use vstd::multiset::Multiset;
use crate::text::{
    all_hex, blank, chars_lt, chars_of, has_prefix, hex_only, is_blank, lemma_chars_lt_irreflexive,
    lemma_chars_lt_total, lemma_chars_lt_transitive, lex_less, trim, trimmed,
};

verus! {

/// Locked component entry.
#[derive(Clone, Debug, PartialEq, Eq)]
pub struct LockedComponent {
    pub name: String,
    /// The component reference (`ref` in the JSON document).
    pub reference: String,
    pub digest: String,
    pub component_id: Option<String>,
    pub bundled: bool,
    pub bundled_path: Option<String>,
    pub wasm_sha256: Option<String>,
    pub resolved_digest: Option<String>,
}

/// Canonical pack lock format (v1).
#[derive(Clone, Debug, PartialEq, Eq)]
pub struct PackLockV1 {
    pub schema_version: u32,
    pub components: Vec<LockedComponent>,
}

/// Why a pack lock is rejected.
#[derive(Clone, Debug, PartialEq, Eq)]
pub enum PackLockError {
    /// `schema_version` is not 1.
    SchemaVersion,
    /// A component name is empty once trimmed.
    EmptyName,
    /// A component id is present but empty once trimmed.
    EmptyComponentId,
    /// A component reference is empty once trimmed.
    EmptyRef,
    /// The digest of the named component is not `sha256:` followed by something.
    InvalidDigest { name: String },
    /// The named component is bundled but has no (non-blank) `bundled_path`.
    MissingBundledPath { name: String },
    /// The named component is bundled but has no (non-blank) `wasm_sha256`.
    MissingWasmSha256 { name: String },
    /// The trimmed `wasm_sha256` of the named component is not 64 hex digits.
    InvalidWasmSha256 { name: String },
    /// The trimmed `bundled_path` of the named component ends with `/`.
    BundledPathNotFile { name: String },
    /// The named component is not bundled but carries bundling metadata.
    UnexpectedBundlingMetadata { name: String },
    /// The resolved digest of the named component is not `sha256:` followed by something.
    InvalidResolvedDigest { name: String },
}

impl PackLockV1 {
    /// A version-1 lock holding `components`.
    pub fn new(components: Vec<LockedComponent>) -> (lock: Self)
        ensures
            lock.schema_version == 1,
            lock.components == components,
    {
        PackLockV1 { schema_version: 1, components }
    }
}

/// The `sha256:` prefix of a digest.
pub open spec fn sha256_prefix() -> Seq<char> {
    seq!['s', 'h', 'a', '2', '5', '6', ':']
}

/// A digest of the form `sha256:<something>`: the prefix and at least one more character
/// (the prefix being ASCII, this is the same as a byte length above 7).
pub open spec fn is_sha256_digest(d: Seq<char>) -> bool {
    has_prefix(d, sha256_prefix()) && d.len() > 7
}

/// An optional field that is absent or blank.
pub open spec fn is_missing(o: Option<String>) -> bool {
    match o {
        None => true,
        Some(s) => is_blank(s@),
    }
}

/// A well-formed wasm hash once trimmed: exactly 64 ASCII hex digits.
pub open spec fn is_wasm_sha256(h: Seq<char>) -> bool {
    trim(h).len() == 64 && all_hex(trim(h))
}

/// A bundled path that names a directory once trimmed: it ends with `/`.
pub open spec fn names_directory(p: Seq<char>) -> bool {
    trim(p).len() > 0 && trim(p).last() == '/'
}

/// The checks on the bundling fields of a component, in order.
pub open spec fn bundling_error(c: LockedComponent) -> Option<PackLockError> {
    if c.bundled {
        if is_missing(c.bundled_path) {
            Some(PackLockError::MissingBundledPath { name: c.name })
        } else if is_missing(c.wasm_sha256) {
            Some(PackLockError::MissingWasmSha256 { name: c.name })
        } else if !is_wasm_sha256(c.wasm_sha256.unwrap()@) {
            Some(PackLockError::InvalidWasmSha256 { name: c.name })
        } else if names_directory(c.bundled_path.unwrap()@) {
            Some(PackLockError::BundledPathNotFile { name: c.name })
        } else {
            None
        }
    } else if c.bundled_path is Some || c.wasm_sha256 is Some {
        Some(PackLockError::UnexpectedBundlingMetadata { name: c.name })
    } else {
        None
    }
}

/// The first rule a component breaks, if any, in the order the rules are checked.
pub open spec fn component_error(c: LockedComponent) -> Option<PackLockError> {
    if is_blank(c.name@) {
        Some(PackLockError::EmptyName)
    } else if c.component_id is Some && is_blank(c.component_id.unwrap()@) {
        Some(PackLockError::EmptyComponentId)
    } else if is_blank(c.reference@) {
        Some(PackLockError::EmptyRef)
    } else if !is_sha256_digest(c.digest@) {
        Some(PackLockError::InvalidDigest { name: c.name })
    } else if bundling_error(c) is Some {
        bundling_error(c)
    } else if c.resolved_digest is Some && !is_sha256_digest(c.resolved_digest.unwrap()@) {
        Some(PackLockError::InvalidResolvedDigest { name: c.name })
    } else {
        None
    }
}

/// A component that keeps every rule, each stated on its own: a non-blank name and
/// reference; a component id that is absent or non-blank; a `sha256:<something>` digest,
/// bundled or not; when bundled, a non-blank path that does not name a directory and a
/// non-blank wasm hash of 64 hex digits; when not bundled, neither of the two; a resolved
/// digest that is absent or `sha256:<something>`.
pub open spec fn keeps_every_rule(c: LockedComponent) -> bool {
    &&& !is_blank(c.name@)
    &&& c.component_id matches Some(id) ==> !is_blank(id@)
    &&& !is_blank(c.reference@)
    &&& is_sha256_digest(c.digest@)
    &&& c.bundled ==> {
        &&& c.bundled_path matches Some(path) && !is_blank(path@) && !names_directory(path@)
        &&& c.wasm_sha256 matches Some(hash) && !is_blank(hash@) && is_wasm_sha256(hash@)
    }
    &&& !c.bundled ==> c.bundled_path is None && c.wasm_sha256 is None
    &&& c.resolved_digest matches Some(d) ==> is_sha256_digest(d@)
}

proof fn lemma_keeps_every_rule(c: LockedComponent)
    ensures
        keeps_every_rule(c) == (component_error(c) is None),
{
}

/// The error of the first component that breaks a rule.
pub open spec fn first_component_error(cs: Seq<LockedComponent>) -> Option<PackLockError>
    decreases cs.len(),
{
    if cs.len() == 0 {
        None
    } else if component_error(cs[0]) is Some {
        component_error(cs[0])
    } else {
        first_component_error(cs.drop_first())
    }
}

/// What validating a lock gives: the schema version is checked first, then the
/// components in order, and the first broken rule is reported.
pub open spec fn lock_validation(lock: PackLockV1) -> Result<(), PackLockError> {
    if lock.schema_version != 1 {
        Err(PackLockError::SchemaVersion)
    } else {
        match first_component_error(lock.components@) {
            Some(e) => Err(e),
            None => Ok(()),
        }
    }
}

/// Whether the characters `v` form a `sha256:<something>` digest.
fn sha256_digest(v: &Vec<char>) -> (b: bool)
    ensures
        b == is_sha256_digest(v@),
{
    if v.len() <= 7 {
        return false;
    }
    let ok = v[0] == 's' && v[1] == 'h' && v[2] == 'a' && v[3] == '2' && v[4] == '5' && v[5] == '6'
        && v[6] == ':';
    proof {
        let p = sha256_prefix();
        let head = v@.subrange(0, 7);
        if ok {
            assert(head =~= p);
        } else {
            assert(head != p) by {
                if head == p {
                    assert(head[0] == p[0] && head[1] == p[1] && head[2] == p[2] && head[3] == p[3]
                        && head[4] == p[4] && head[5] == p[5] && head[6] == p[6]);
                }
            }
        }
    }
    ok
}

/// Whether an optional field is absent or blank.
fn missing(o: &Option<String>) -> (b: bool)
    ensures
        b == is_missing(*o),
{
    match o {
        None => true,
        Some(s) => blank(&chars_of(s.as_str())),
    }
}

/// The bundling checks of a component.
fn check_bundling(c: &LockedComponent) -> (r: Option<PackLockError>)
    ensures
        r == bundling_error(*c),
{
    if c.bundled {
        if missing(&c.bundled_path) {
            return Some(PackLockError::MissingBundledPath { name: c.name.clone() });
        }
        if missing(&c.wasm_sha256) {
            return Some(PackLockError::MissingWasmSha256 { name: c.name.clone() });
        }
        let hash = match &c.wasm_sha256 {
            Some(h) => trimmed(&chars_of(h.as_str())),
            None => Vec::new(),
        };
        if !(hash.len() == 64 && hex_only(&hash)) {
            return Some(PackLockError::InvalidWasmSha256 { name: c.name.clone() });
        }
        let path = match &c.bundled_path {
            Some(p) => trimmed(&chars_of(p.as_str())),
            None => Vec::new(),
        };
        if path.len() > 0 && path[path.len() - 1] == '/' {
            return Some(PackLockError::BundledPathNotFile { name: c.name.clone() });
        }
        None
    } else if c.bundled_path.is_some() || c.wasm_sha256.is_some() {
        Some(PackLockError::UnexpectedBundlingMetadata { name: c.name.clone() })
    } else {
        None
    }
}

/// The first rule a component breaks, if any.
pub fn check_component(c: &LockedComponent) -> (r: Option<PackLockError>)
    ensures
        r == component_error(*c),
        (r is None) == keeps_every_rule(*c),
{
    proof {
        lemma_keeps_every_rule(*c);
    }
    if blank(&chars_of(c.name.as_str())) {
        return Some(PackLockError::EmptyName);
    }
    if let Some(id) = &c.component_id {
        if blank(&chars_of(id.as_str())) {
            return Some(PackLockError::EmptyComponentId);
        }
    }
    if blank(&chars_of(c.reference.as_str())) {
        return Some(PackLockError::EmptyRef);
    }
    if !sha256_digest(&chars_of(c.digest.as_str())) {
        return Some(PackLockError::InvalidDigest { name: c.name.clone() });
    }
    let bundling = check_bundling(c);
    if bundling.is_some() {
        return bundling;
    }
    if let Some(resolved) = &c.resolved_digest {
        if !sha256_digest(&chars_of(resolved.as_str())) {
            return Some(PackLockError::InvalidResolvedDigest { name: c.name.clone() });
        }
    }
    None
}

/// Validate a pack.lock document.
pub fn validate_pack_lock(lock: &PackLockV1) -> (r: Result<(), PackLockError>)
    ensures
        r == lock_validation(*lock),
        (r is Ok) == (lock.schema_version == 1 && forall|i: int|
            0 <= i < lock.components@.len() ==> keeps_every_rule(#[trigger] lock.components@[i])),
{
    proof {
        law_accepted_lock_keeps_every_rule(*lock);
    }
    if lock.schema_version != 1 {
        return Err(PackLockError::SchemaVersion);
    }
    let cs = &lock.components;
    let mut i: usize = 0;
    assert(cs@.skip(0) =~= cs@);
    while i < cs.len()
        invariant
            i <= cs@.len(),
            lock.schema_version == 1,
            cs@ == lock.components@,
            first_component_error(cs@) == first_component_error(cs@.skip(i as int)),
        decreases cs@.len() - i,
    {
        assert(cs@.skip(i as int)[0] == cs@[i as int]);
        let checked = check_component(&cs[i]);
        if let Some(e) = checked {
            assert(first_component_error(cs@.skip(i as int)) == Some(e));
            return Err(e);
        }
        assert(cs@.skip(i as int).drop_first() =~= cs@.skip(i + 1));
        i = i + 1;
    }
    assert(cs@.skip(i as int) =~= Seq::<LockedComponent>::empty());
    Ok(())
}

/// Components are written ordered by name, then by reference.
pub open spec fn key_lt(x: LockedComponent, y: LockedComponent) -> bool {
    ||| chars_lt(x.name@, y.name@)
    ||| (x.name@ == y.name@ && chars_lt(x.reference@, y.reference@))
}

/// Two components with the same name and reference.
pub open spec fn same_key(x: LockedComponent, y: LockedComponent) -> bool {
    x.name@ == y.name@ && x.reference@ == y.reference@
}

/// No component comes after one that it should precede.
pub open spec fn sorted_by_key(s: Seq<LockedComponent>) -> bool {
    forall|i: int, j: int| 0 <= i < j < s.len() ==> !key_lt(#[trigger] s[j], #[trigger] s[i])
}

/// `x` inserted into `s` after every component that it does not precede.
pub open spec fn insert_by_key(s: Seq<LockedComponent>, x: LockedComponent) -> Seq<LockedComponent>
    decreases s.len(),
{
    if s.len() == 0 {
        seq![x]
    } else if key_lt(x, s.last()) {
        insert_by_key(s.drop_last(), x).push(s.last())
    } else {
        s.push(x)
    }
}

/// The components in write order: a stable sort by name, then reference, so that
/// components with the same name and reference keep their relative order.
pub open spec fn sort_by_key(s: Seq<LockedComponent>) -> Seq<LockedComponent>
    decreases s.len(),
{
    if s.len() == 0 {
        s
    } else {
        insert_by_key(sort_by_key(s.drop_last()), s.last())
    }
}

proof fn lemma_key_lt_irreflexive(x: LockedComponent)
    ensures
        !key_lt(x, x),
{
    lemma_chars_lt_irreflexive(x.name@);
    lemma_chars_lt_irreflexive(x.reference@);
}

proof fn lemma_key_lt_transitive(x: LockedComponent, y: LockedComponent, z: LockedComponent)
    requires
        key_lt(x, y),
        key_lt(y, z),
    ensures
        key_lt(x, z),
{
    if chars_lt(x.name@, y.name@) && chars_lt(y.name@, z.name@) {
        lemma_chars_lt_transitive(x.name@, y.name@, z.name@);
    } else if x.name@ == y.name@ && y.name@ == z.name@ {
        lemma_chars_lt_transitive(x.reference@, y.reference@, z.reference@);
    }
}

proof fn lemma_key_not_lt(x: LockedComponent, y: LockedComponent)
    requires
        !key_lt(x, y),
    ensures
        key_lt(y, x) || same_key(x, y),
{
    if x.name@ != y.name@ {
        lemma_chars_lt_total(x.name@, y.name@);
    } else if x.reference@ != y.reference@ {
        lemma_chars_lt_total(x.reference@, y.reference@);
    }
}

/// Not preceding is transitive (the key order is total).
proof fn lemma_key_not_lt_transitive(x: LockedComponent, y: LockedComponent, z: LockedComponent)
    requires
        !key_lt(x, y),
        !key_lt(y, z),
    ensures
        !key_lt(x, z),
{
    lemma_key_not_lt(x, y);
    lemma_key_not_lt(y, z);
    lemma_key_lt_irreflexive(x);
    lemma_key_lt_irreflexive(z);
    if key_lt(x, z) {
        if key_lt(y, x) && key_lt(z, y) {
            lemma_key_lt_transitive(z, y, x);
            lemma_key_lt_transitive(x, z, x);
        }
    }
}

/// Inserting `x` at the position that the exec code finds is `insert_by_key`.
proof fn lemma_insert_by_key_at(s: Seq<LockedComponent>, x: LockedComponent, pos: int)
    requires
        0 <= pos <= s.len(),
        forall|k: int| pos <= k < s.len() ==> key_lt(x, #[trigger] s[k]),
        pos > 0 ==> !key_lt(x, s[pos - 1]),
    ensures
        insert_by_key(s, x) == s.insert(pos, x),
    decreases s.len(),
{
    if s.len() == 0 {
        assert(s.insert(pos, x) =~= seq![x]);
    } else if pos == s.len() {
        assert(s.insert(pos, x) =~= s.push(x));
    } else {
        assert(key_lt(x, s[s.len() - 1]));
        lemma_insert_by_key_at(s.drop_last(), x, pos);
        assert(s.drop_last().insert(pos, x).push(s.last()) =~= s.insert(pos, x));
    }
}

/// Inserting keeps the order and adds exactly `x`.
proof fn lemma_insert_by_key(s: Seq<LockedComponent>, x: LockedComponent)
    requires
        sorted_by_key(s),
    ensures
        sorted_by_key(insert_by_key(s, x)),
        insert_by_key(s, x).to_multiset() =~= s.to_multiset().insert(x),
        insert_by_key(s, x).len() == s.len() + 1,
    decreases s.len(),
{
    broadcast use vstd::seq_lib::group_to_multiset_ensures;

    if s.len() == 0 {
        assert(seq![x] =~= Seq::<LockedComponent>::empty().push(x));
        assert(s =~= Seq::<LockedComponent>::empty());
    } else if key_lt(x, s.last()) {
        let rest = s.drop_last();
        let last = s.last();
        assert(sorted_by_key(rest));
        lemma_insert_by_key(rest, x);
        let r0 = insert_by_key(rest, x);
        let r = r0.push(last);
        assert(s =~= rest.push(last));
        assert forall|i: int, j: int| 0 <= i < j < r.len() implies !key_lt(
            #[trigger] r[j],
            #[trigger] r[i],
        ) by {
            if j == r.len() - 1 {
                let e = r0[i];
                assert(r0.to_multiset().count(e) > 0);
                if e == x {
                    lemma_key_lt_irreflexive(x);
                    if key_lt(last, x) {
                        lemma_key_lt_transitive(x, last, x);
                    }
                } else {
                    assert(rest.to_multiset().count(e) > 0);
                    assert(rest.contains(e));
                    let k = choose|k: int| 0 <= k < rest.len() && rest[k] == e;
                    assert(s[k] == e);
                    assert(s[s.len() - 1] == last);
                }
            } else {
                assert(r[i] == r0[i] && r[j] == r0[j]);
            }
        }
    } else {
        let r = s.push(x);
        assert forall|i: int, j: int| 0 <= i < j < r.len() implies !key_lt(
            #[trigger] r[j],
            #[trigger] r[i],
        ) by {
            if j == r.len() - 1 {
                if i < s.len() - 1 {
                    assert(!key_lt(s[s.len() - 1], s[i]));
                    lemma_key_not_lt_transitive(x, s[s.len() - 1], s[i]);
                }
            } else {
                assert(r[i] == s[i] && r[j] == s[j]);
            }
        }
    }
}

/// The write order is sorted by key and holds exactly the same components.
pub proof fn lemma_sort_by_key(s: Seq<LockedComponent>)
    ensures
        sorted_by_key(sort_by_key(s)),
        sort_by_key(s).to_multiset() =~= s.to_multiset(),
        sort_by_key(s).len() == s.len(),
    decreases s.len(),
{
    broadcast use vstd::seq_lib::group_to_multiset_ensures;

    if s.len() > 0 {
        lemma_sort_by_key(s.drop_last());
        lemma_insert_by_key(sort_by_key(s.drop_last()), s.last());
        assert(s =~= s.drop_last().push(s.last()));
    }
}

/// An independent copy of an optional string.
fn copy_text(o: &Option<String>) -> (r: Option<String>)
    ensures
        r == *o,
{
    match o {
        Some(s) => Some(s.clone()),
        None => None,
    }
}

impl LockedComponent {
    /// An independent copy of this entry.
    pub fn duplicate(&self) -> (r: Self)
        ensures
            r == *self,
    {
        LockedComponent {
            name: self.name.clone(),
            reference: self.reference.clone(),
            digest: self.digest.clone(),
            component_id: copy_text(&self.component_id),
            bundled: self.bundled,
            bundled_path: copy_text(&self.bundled_path),
            wasm_sha256: copy_text(&self.wasm_sha256),
            resolved_digest: copy_text(&self.resolved_digest),
        }
    }
}

/// Whether `x` is written before `y`.
fn key_less(x: &LockedComponent, y: &LockedComponent) -> (r: bool)
    ensures
        r == key_lt(*x, *y),
{
    let xn = chars_of(x.name.as_str());
    let yn = chars_of(y.name.as_str());
    if lex_less(&xn, &yn) {
        return true;
    }
    if x.name == y.name {
        lex_less(&chars_of(x.reference.as_str()), &chars_of(y.reference.as_str()))
    } else {
        false
    }
}

/// The lock with its components in write order (sorted by name, then reference;
/// entries with equal keys keep their order).
pub fn normalize_pack_lock(lock: &PackLockV1) -> (r: PackLockV1)
    ensures
        r.schema_version == lock.schema_version,
        r.components@ == sort_by_key(lock.components@),
{
    let cs = &lock.components;
    let n = cs.len();
    let mut out: Vec<LockedComponent> = Vec::new();
    let mut i: usize = 0;
    assert(cs@.take(0) =~= Seq::<LockedComponent>::empty());
    while i < n
        invariant
            n == cs@.len(),
            i <= n,
            out@ == sort_by_key(cs@.take(i as int)),
        decreases n - i,
    {
        let x = cs[i].duplicate();
        let mut pos = out.len();
        while pos > 0 && key_less(&x, &out[pos - 1])
            invariant
                pos <= out@.len(),
                forall|k: int| pos <= k < out@.len() ==> key_lt(x, #[trigger] out@[k]),
            decreases pos,
        {
            pos = pos - 1;
        }
        proof {
            lemma_insert_by_key_at(out@, x, pos as int);
            assert(cs@.take(i + 1).drop_last() =~= cs@.take(i as int));
            assert(cs@.take(i + 1).last() == cs@[i as int]);
        }
        out.insert(pos, x);
        i = i + 1;
    }
    assert(cs@.take(n as int) =~= cs@);
    PackLockV1 { schema_version: lock.schema_version, components: out }
}

/// Every component keeps every rule.
pub open spec fn all_components_valid(cs: Seq<LockedComponent>) -> bool {
    forall|i: int| 0 <= i < cs.len() ==> component_error(#[trigger] cs[i]) is None
}

proof fn lemma_first_component_error_none(cs: Seq<LockedComponent>)
    ensures
        (first_component_error(cs) is None) == all_components_valid(cs),
    decreases cs.len(),
{
    if cs.len() > 0 {
        lemma_first_component_error_none(cs.drop_first());
        if component_error(cs[0]) is None {
            assert(all_components_valid(cs) == all_components_valid(cs.drop_first())) by {
                if all_components_valid(cs.drop_first()) {
                    assert forall|i: int| 0 <= i < cs.len() implies component_error(
                        #[trigger] cs[i],
                    ) is None by {
                        if i > 0 {
                            assert(cs[i] == cs.drop_first()[i - 1]);
                        }
                    }
                }
                if all_components_valid(cs) {
                    assert forall|i: int| 0 <= i < cs.len() - 1 implies component_error(
                        #[trigger] cs.drop_first()[i],
                    ) is None by {
                        assert(cs.drop_first()[i] == cs[i + 1]);
                    }
                }
            }
        } else {
            assert(!all_components_valid(cs)) by {
                assert(component_error(cs[0]) is Some);
            }
        }
    }
}

/// A lock is accepted exactly when its schema version is 1 and every component keeps
/// every rule; which error a rejected lock gets depends on the order of its components,
/// whether it is rejected does not.
pub proof fn law_validation_accepts_exactly_valid_components(lock: PackLockV1)
    ensures
        (lock_validation(lock) is Ok) == (lock.schema_version == 1 && all_components_valid(
            lock.components@,
        )),
{
    lemma_first_component_error_none(lock.components@);
}

/// A lock is accepted exactly when its schema version is 1 and each of its components
/// keeps each rule on its own: whatever its other fields, a component with a blank name
/// or reference, a blank component id, a digest that is not `sha256:<something>` (bundled
/// or not), bad bundling fields or a bad resolved digest makes the lock refused.
pub proof fn law_accepted_lock_keeps_every_rule(lock: PackLockV1)
    ensures
        (lock_validation(lock) is Ok) == (lock.schema_version == 1 && forall|i: int|
            0 <= i < lock.components@.len() ==> keeps_every_rule(#[trigger] lock.components@[i])),
        lock_validation(lock) is Ok ==> forall|i: int|
            0 <= i < lock.components@.len() ==> {
                let c = #[trigger] lock.components@[i];
                &&& !is_blank(c.name@)
                &&& !is_blank(c.reference@)
                &&& is_sha256_digest(c.digest@)
            },
{
    law_validation_accepts_exactly_valid_components(lock);
    let cs = lock.components@;
    assert forall|i: int| 0 <= i < cs.len() implies keeps_every_rule(#[trigger] cs[i])
        == (component_error(cs[i]) is None) by {
        lemma_keeps_every_rule(cs[i]);
    }
}

/// The rules are checked in this order, each only once those before it hold, and the
/// error names the first one broken: name, component id, reference, digest, the bundled
/// path's presence, the wasm hash's presence, its form, the bundled path's form, metadata
/// on a component that is not bundled, and the resolved digest.
pub proof fn law_error_names_first_broken_rule(c: LockedComponent)
    ensures
        ({
            let name_ok = !is_blank(c.name@);
            let id_ok = name_ok && !(c.component_id matches Some(id) && is_blank(id@));
            let ref_ok = id_ok && !is_blank(c.reference@);
            let digest_ok = ref_ok && is_sha256_digest(c.digest@);
            let path_ok = digest_ok && c.bundled && (c.bundled_path matches Some(p)
                && !is_blank(p@));
            let hash_ok = path_ok && (c.wasm_sha256 matches Some(h) && !is_blank(h@));
            let bundling_ok = digest_ok && (if c.bundled {
                hash_ok && is_wasm_sha256(c.wasm_sha256.unwrap()@) && !names_directory(
                    c.bundled_path.unwrap()@,
                )
            } else {
                c.bundled_path is None && c.wasm_sha256 is None
            });
            &&& !name_ok ==> component_error(c) == Some(PackLockError::EmptyName)
            &&& name_ok && !id_ok ==> component_error(c) == Some(PackLockError::EmptyComponentId)
            &&& id_ok && !ref_ok ==> component_error(c) == Some(PackLockError::EmptyRef)
            &&& ref_ok && !digest_ok ==> component_error(c) == Some(
                PackLockError::InvalidDigest { name: c.name },
            )
            &&& digest_ok && c.bundled && !path_ok ==> component_error(c) == Some(
                PackLockError::MissingBundledPath { name: c.name },
            )
            &&& path_ok && !hash_ok ==> component_error(c) == Some(
                PackLockError::MissingWasmSha256 { name: c.name },
            )
            &&& hash_ok && !is_wasm_sha256(c.wasm_sha256.unwrap()@) ==> component_error(c) == Some(
                PackLockError::InvalidWasmSha256 { name: c.name },
            )
            &&& hash_ok && is_wasm_sha256(c.wasm_sha256.unwrap()@) && names_directory(
                c.bundled_path.unwrap()@,
            ) ==> component_error(c) == Some(PackLockError::BundledPathNotFile { name: c.name })
            &&& digest_ok && !c.bundled && !bundling_ok ==> component_error(c) == Some(
                PackLockError::UnexpectedBundlingMetadata { name: c.name },
            )
            &&& bundling_ok && (c.resolved_digest matches Some(d) && !is_sha256_digest(d@))
                ==> component_error(c) == Some(PackLockError::InvalidResolvedDigest { name: c.name })
            &&& bundling_ok && !(c.resolved_digest matches Some(d) && !is_sha256_digest(d@))
                ==> component_error(c) is None
        }),
{
}

/// A lock with a schema version other than 1 is refused for that alone; in a version-1
/// lock the first component, in order, that breaks a rule decides the error, whatever the
/// components after it hold.
pub proof fn law_first_broken_component_decides(lock: PackLockV1, i: int)
    requires
        0 <= i < lock.components@.len(),
        forall|j: int| 0 <= j < i ==> keeps_every_rule(#[trigger] lock.components@[j]),
        !keeps_every_rule(lock.components@[i]),
    ensures
        lock.schema_version != 1 ==> lock_validation(lock) == Err::<(), PackLockError>(
            PackLockError::SchemaVersion,
        ),
        lock.schema_version == 1 ==> (component_error(lock.components@[i]) matches Some(e)
            && lock_validation(lock) == Err::<(), PackLockError>(e)),
{
    let cs = lock.components@;
    lemma_keeps_every_rule(cs[i]);
    lemma_first_broken_decides(cs, i);
}

proof fn lemma_first_broken_decides(cs: Seq<LockedComponent>, i: int)
    requires
        0 <= i < cs.len(),
        forall|j: int| 0 <= j < i ==> keeps_every_rule(#[trigger] cs[j]),
        component_error(cs[i]) is Some,
    ensures
        first_component_error(cs) == component_error(cs[i]),
    decreases i,
{
    if i > 0 {
        lemma_keeps_every_rule(cs[0]);
        assert forall|j: int| 0 <= j < i - 1 implies keeps_every_rule(
            #[trigger] cs.drop_first()[j],
        ) by {
            assert(cs.drop_first()[j] == cs[j + 1]);
        }
        assert(cs.drop_first()[i - 1] == cs[i]);
        lemma_first_broken_decides(cs.drop_first(), i - 1);
    }
}

/// The write order is sorted by name, then reference, and holds exactly the
/// components it was given, each as often as it was given.
pub proof fn law_write_order_is_sorted_permutation(cs: Seq<LockedComponent>)
    ensures
        sorted_by_key(sort_by_key(cs)),
        sort_by_key(cs).to_multiset() == cs.to_multiset(),
        sort_by_key(cs).len() == cs.len(),
{
    lemma_sort_by_key(cs);
}

/// Components already in write order stay as they are.
pub proof fn law_sorted_components_unchanged(cs: Seq<LockedComponent>)
    requires
        sorted_by_key(cs),
    ensures
        sort_by_key(cs) == cs,
    decreases cs.len(),
{
    if cs.len() > 0 {
        let rest = cs.drop_last();
        assert(sorted_by_key(rest));
        law_sorted_components_unchanged(rest);
        if cs.len() >= 2 {
            assert(!key_lt(cs[cs.len() - 1], cs[cs.len() - 2]));
            assert(rest.last() == cs[cs.len() - 2]);
        } else {
            assert(rest =~= Seq::<LockedComponent>::empty());
            assert(seq![cs.last()] =~= cs);
        }
        assert(rest.push(cs.last()) =~= cs);
    }
}

/// Normalizing twice orders the components as normalizing once.
pub proof fn law_write_order_idempotent(cs: Seq<LockedComponent>)
    ensures
        sort_by_key(sort_by_key(cs)) == sort_by_key(cs),
{
    lemma_sort_by_key(cs);
    law_sorted_components_unchanged(sort_by_key(cs));
}

/// The components that share the name and reference of `k`.
pub open spec fn with_key_of(k: LockedComponent) -> spec_fn(LockedComponent) -> bool {
    |x: LockedComponent| same_key(x, k)
}

proof fn lemma_insert_by_key_filter(t: Seq<LockedComponent>, x: LockedComponent, k: LockedComponent)
    ensures
        insert_by_key(t, x).filter(with_key_of(k)) == (if same_key(x, k) {
            t.filter(with_key_of(k)).push(x)
        } else {
            t.filter(with_key_of(k))
        }),
    decreases t.len(),
{
    reveal(Seq::filter);
    let p = with_key_of(k);
    if t.len() == 0 {
        assert(seq![x] =~= Seq::<LockedComponent>::empty().push(x));
        assert(seq![x].drop_last() =~= Seq::<LockedComponent>::empty());
        assert(t =~= Seq::<LockedComponent>::empty());
    } else if key_lt(x, t.last()) {
        let rest = t.drop_last();
        let last = t.last();
        lemma_insert_by_key_filter(rest, x, k);
        let ins = insert_by_key(rest, x);
        assert(ins.push(last).drop_last() =~= ins);
        if same_key(x, k) && same_key(last, k) {
            lemma_key_lt_irreflexive(x);
        }
    } else {
        assert(t.push(x).drop_last() =~= t);
    }
}

/// The write order is stable: the components that share a name and a reference come
/// out in the order in which they were given.
pub proof fn law_write_order_is_stable(s: Seq<LockedComponent>, k: LockedComponent)
    ensures
        sort_by_key(s).filter(with_key_of(k)) == s.filter(with_key_of(k)),
    decreases s.len(),
{
    reveal(Seq::filter);
    if s.len() > 0 {
        law_write_order_is_stable(s.drop_last(), k);
        lemma_insert_by_key_filter(sort_by_key(s.drop_last()), s.last(), k);
    }
}

/// No two components share a name and a reference.
pub open spec fn distinct_keys(s: Seq<LockedComponent>) -> bool {
    forall|i: int, j: int| 0 <= i < j < s.len() ==> !same_key(#[trigger] s[i], #[trigger] s[j])
}

/// Each component occurs once, and no two share a name and a reference.
spec fn distinct_key_bag(m: Multiset<LockedComponent>) -> bool {
    &&& forall|x: LockedComponent| m.count(x) <= 1
    &&& forall|x: LockedComponent, y: LockedComponent|
        #![trigger m.count(x), m.count(y)]
        m.count(x) > 0 && m.count(y) > 0 && same_key(x, y) ==> x == y
}

proof fn lemma_distinct_keys_bag(s: Seq<LockedComponent>)
    requires
        distinct_keys(s),
    ensures
        distinct_key_bag(s.to_multiset()),
{
    broadcast use vstd::seq_lib::group_to_multiset_ensures;

    assert(s.no_duplicates()) by {
        assert forall|i: int, j: int| 0 <= i < s.len() && 0 <= j < s.len() && i != j implies s[i]
            != s[j] by {
            if i < j {
                assert(!same_key(s[i], s[j]));
            } else {
                assert(!same_key(s[j], s[i]));
            }
        }
    }
    s.lemma_multiset_has_no_duplicates();
    let m = s.to_multiset();
    assert forall|x: LockedComponent| m.count(x) <= 1 by {
        if m.count(x) > 0 {
            assert(m.contains(x));
        }
    }
    assert forall|x: LockedComponent, y: LockedComponent|
        m.count(x) > 0 && m.count(y) > 0 && same_key(x, y) implies x == y by {
        assert(s.contains(x) && s.contains(y));
        let i = choose|i: int| 0 <= i < s.len() && s[i] == x;
        let j = choose|j: int| 0 <= j < s.len() && s[j] == y;
        if i < j {
            assert(!same_key(s[i], s[j]));
        } else if j < i {
            assert(!same_key(s[j], s[i]));
        }
    }
}

/// Two sorted orders of the same components, no two of which share a key, are the same.
proof fn lemma_sorted_unique(t1: Seq<LockedComponent>, t2: Seq<LockedComponent>)
    requires
        sorted_by_key(t1),
        sorted_by_key(t2),
        t1.to_multiset() == t2.to_multiset(),
        distinct_key_bag(t1.to_multiset()),
    ensures
        t1 == t2,
    decreases t1.len(),
{
    broadcast use vstd::seq_lib::group_to_multiset_ensures;
    broadcast use vstd::multiset::group_multiset_axioms;

    vstd::seq_lib::to_multiset_len(t1);
    vstd::seq_lib::to_multiset_len(t2);
    assert(t1.len() == t2.len());
    if t1.len() == 0 {
        assert(t1 =~= t2);
    } else {
        let n = t1.len() - 1;
        let a = t1.last();
        let b = t2.last();
        let m = t1.to_multiset();
        assert(t1.contains(a) && t2.contains(b));
        if a != b {
            assert(m.count(a) > 0 && m.count(b) > 0);
            assert(!same_key(a, b));
            let k = choose|k: int| 0 <= k < t2.len() && t2[k] == a;
            let i = choose|i: int| 0 <= i < t1.len() && t1[i] == b;
            assert(k < n && i < n);
            assert(!key_lt(t2[n], t2[k]));
            assert(!key_lt(t1[n], t1[i]));
            lemma_key_not_lt(b, a);
        }
        let d1 = t1.drop_last();
        let d2 = t2.drop_last();
        assert(t1 =~= d1.push(a));
        assert(t2 =~= d2.push(a));
        assert(d1.to_multiset() =~= d2.to_multiset()) by {
            assert(d1.to_multiset().insert(a) == d2.to_multiset().insert(a));
            assert forall|y: LockedComponent| d1.to_multiset().count(y) == d2.to_multiset().count(
                y,
            ) by {
                assert(d1.to_multiset().insert(a).count(y) == d2.to_multiset().insert(a).count(y));
            }
        }
        assert(distinct_key_bag(d1.to_multiset())) by {
            let dm = d1.to_multiset();
            assert forall|y: LockedComponent| dm.count(y) <= m.count(y) by {
                assert(m.count(y) == dm.insert(a).count(y));
            }
            assert forall|x: LockedComponent| dm.count(x) <= 1 by {
                assert(dm.count(x) <= m.count(x));
            }
            assert forall|x: LockedComponent, y: LockedComponent|
                dm.count(x) > 0 && dm.count(y) > 0 && same_key(x, y) implies x == y by {
                assert(dm.count(x) <= m.count(x));
                assert(dm.count(y) <= m.count(y));
                assert(m.count(x) > 0 && m.count(y) > 0);
            }
        }
        assert(sorted_by_key(d1)) by {
            assert forall|i: int, j: int| 0 <= i < j < d1.len() implies !key_lt(
                #[trigger] d1[j],
                #[trigger] d1[i],
            ) by {
                assert(d1[i] == t1[i] && d1[j] == t1[j]);
            }
        }
        assert(sorted_by_key(d2)) by {
            assert forall|i: int, j: int| 0 <= i < j < d2.len() implies !key_lt(
                #[trigger] d2[j],
                #[trigger] d2[i],
            ) by {
                assert(d2[i] == t2[i] && d2[j] == t2[j]);
            }
        }
        lemma_sorted_unique(d1, d2);
    }
}

/// When no two components share a name and a reference, the written order does not
/// depend on the order the components were given in.
pub proof fn law_write_order_ignores_input_order(s1: Seq<LockedComponent>, s2: Seq<LockedComponent>)
    requires
        s1.to_multiset() == s2.to_multiset(),
        distinct_keys(s1),
    ensures
        sort_by_key(s1) == sort_by_key(s2),
{
    lemma_sort_by_key(s1);
    lemma_sort_by_key(s2);
    lemma_distinct_keys_bag(s1);
    lemma_sorted_unique(sort_by_key(s1), sort_by_key(s2));
}

/// Reordering the components for writing neither makes a valid lock invalid nor an
/// invalid one valid.
pub proof fn law_write_order_keeps_validity(cs: Seq<LockedComponent>)
    ensures
        (first_component_error(sort_by_key(cs)) is None) == (first_component_error(cs) is None),
{
    broadcast use vstd::seq_lib::group_to_multiset_ensures;

    let t = sort_by_key(cs);
    lemma_sort_by_key(cs);
    lemma_first_component_error_none(cs);
    lemma_first_component_error_none(t);
    if all_components_valid(cs) {
        assert forall|i: int| 0 <= i < t.len() implies component_error(#[trigger] t[i]) is None by {
            assert(t.to_multiset().count(t[i]) > 0);
            assert(cs.contains(t[i]));
        }
    }
    if all_components_valid(t) {
        assert forall|i: int| 0 <= i < cs.len() implies component_error(#[trigger] cs[i]) is None by {
            assert(cs.to_multiset().count(cs[i]) > 0);
            assert(t.contains(cs[i]));
        }
    }
}

/// What is written for a lock: the validation error, or the lock in write order.
pub fn pack_lock_for_write(lock: &PackLockV1) -> (r: Result<PackLockV1, PackLockError>)
    ensures
        match r {
            Ok(l) => {
                &&& lock_validation(*lock) is Ok
                &&& l.schema_version == lock.schema_version
                &&& l.components@ == sort_by_key(lock.components@)
                &&& lock_validation(l) is Ok
            },
            Err(e) => lock_validation(*lock) == Err::<(), PackLockError>(e),
        },
{
    match validate_pack_lock(lock) {
        Err(e) => Err(e),
        Ok(()) => {
            let l = normalize_pack_lock(lock);
            proof {
                law_write_order_keeps_validity(lock.components@);
            }
            Ok(l)
        },
    }
}

/// `before`, then `name`, then `after`.
pub fn framed(before: &str, name: &String, after: &str) -> (r: String)
    ensures
        r@ == before@ + name@ + after@,
{
    let mut r = before.to_owned();
    r.append(name.as_str());
    r.append(after);
    r
}

impl PackLockError {
    /// The text of the error.
    pub open spec fn text(self) -> Seq<char> {
        match self {
            PackLockError::SchemaVersion => "pack.lock schema_version must be 1"@,
            PackLockError::EmptyName => "pack.lock component name must not be empty"@,
            PackLockError::EmptyComponentId => "pack.lock component_id must not be empty when set"@,
            PackLockError::EmptyRef => "pack.lock component ref must not be empty"@,
            PackLockError::InvalidDigest { name } => "pack.lock component digest for "@ + name@
                + " must start with sha256:<hex>"@,
            PackLockError::MissingBundledPath { name } => "pack.lock component "@ + name@
                + " is bundled but missing bundled_path"@,
            PackLockError::MissingWasmSha256 { name } => "pack.lock component "@ + name@
                + " is bundled but missing wasm_sha256"@,
            PackLockError::InvalidWasmSha256 { name } => "pack.lock component "@ + name@
                + " wasm_sha256 must be 64 hex chars"@,
            PackLockError::BundledPathNotFile { name } => "pack.lock component "@ + name@
                + " bundled_path must be a file path"@,
            PackLockError::UnexpectedBundlingMetadata { name } => "pack.lock component "@ + name@
                + " has bundling metadata but bundled=false"@,
            PackLockError::InvalidResolvedDigest { name } => "pack.lock component resolved_digest for "@
                + name@ + " must start with sha256:<hex>"@,
        }
    }

    /// The message shown for the error.
    pub fn message(&self) -> (m: String)
        ensures
            m@ == self.text(),
    {
        match self {
            PackLockError::SchemaVersion => "pack.lock schema_version must be 1".to_owned(),
            PackLockError::EmptyName => "pack.lock component name must not be empty".to_owned(),
            PackLockError::EmptyComponentId => "pack.lock component_id must not be empty when set".to_owned(),
            PackLockError::EmptyRef => "pack.lock component ref must not be empty".to_owned(),
            PackLockError::InvalidDigest { name } => framed(
                "pack.lock component digest for ",
                name,
                " must start with sha256:<hex>",
            ),
            PackLockError::MissingBundledPath { name } => framed(
                "pack.lock component ",
                name,
                " is bundled but missing bundled_path",
            ),
            PackLockError::MissingWasmSha256 { name } => framed(
                "pack.lock component ",
                name,
                " is bundled but missing wasm_sha256",
            ),
            PackLockError::InvalidWasmSha256 { name } => framed(
                "pack.lock component ",
                name,
                " wasm_sha256 must be 64 hex chars",
            ),
            PackLockError::BundledPathNotFile { name } => framed(
                "pack.lock component ",
                name,
                " bundled_path must be a file path",
            ),
            PackLockError::UnexpectedBundlingMetadata { name } => framed(
                "pack.lock component ",
                name,
                " has bundling metadata but bundled=false",
            ),
            PackLockError::InvalidResolvedDigest { name } => framed(
                "pack.lock component resolved_digest for ",
                name,
                " must start with sha256:<hex>",
            ),
        }
    }
}

/// Whether a serialized `bundled` flag may be left out (it is `false`).
pub fn is_false(value: &bool) -> (r: bool)
    ensures
        r == !*value,
{
    !*value
}

} // verus!
