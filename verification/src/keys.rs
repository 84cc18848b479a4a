//! Object keys: every artifact type is stored under its own prefix, so that
//! lifecycle rules can expire each kind of artifact separately.

use vstd::prelude::*;

verus! {

/// The kinds of artifacts that the store holds.
#[derive(Clone, Copy, Debug, PartialEq, Eq, Structural)]
pub enum ArtifactType {
    UnspecifiedArtifactType,
    Program,
    Stdin,
    Proof,
    Groth16Circuit,
    PlonkCircuit,
    PrivateStdin,
}

/// The prefix, slash included, under which objects of type `t` are stored.
pub open spec fn key_prefix(t: ArtifactType) -> Seq<char> {
    match t {
        ArtifactType::Program => "program/"@,
        ArtifactType::Stdin => "stdin/"@,
        ArtifactType::Proof => "proof/"@,
        ArtifactType::Groth16Circuit => "groth16-circuit/"@,
        ArtifactType::PlonkCircuit => "plonk-circuit/"@,
        _ => "other/"@,
    }
}

/// The object key of the artifact `id` of type `t`.
pub open spec fn gcs_key(t: ArtifactType, id: Seq<char>) -> Seq<char> {
    key_prefix(t) + id
}

/// Builds the object key of an artifact: its type's prefix followed by its id.
pub fn get_gcs_key_from_id(artifact_type: ArtifactType, id: &str) -> (key: String)
    ensures
        key@ == gcs_key(artifact_type, id@),
        key@.len() == key_prefix(artifact_type).len() + id@.len(),
        key@.take(key_prefix(artifact_type).len() as int) == key_prefix(artifact_type),
        key@.skip(key_prefix(artifact_type).len() as int) == id@,
{
    let prefix: &str = match artifact_type {
        ArtifactType::Program => "program/",
        ArtifactType::Stdin => "stdin/",
        ArtifactType::Proof => "proof/",
        ArtifactType::Groth16Circuit => "groth16-circuit/",
        ArtifactType::PlonkCircuit => "plonk-circuit/",
        _ => "other/",
    };
    let mut key = String::from_str(prefix);
    key.append(id);
    assert(key@.take(key_prefix(artifact_type).len() as int) =~= key_prefix(artifact_type));
    assert(key@.skip(key_prefix(artifact_type).len() as int) =~= id@);
    key
}

/// Whether objects of type `t` have a prefix of their own; the remaining
/// types share the `other/` prefix.
pub open spec fn has_own_prefix(t: ArtifactType) -> bool {
    match t {
        ArtifactType::UnspecifiedArtifactType | ArtifactType::PrivateStdin => false,
        _ => true,
    }
}

/// Every prefix ends in its only slash.
proof fn lemma_prefix_shape(t: ArtifactType)
    ensures
        key_prefix(t).len() >= 2,
        key_prefix(t)[key_prefix(t).len() - 1] == '/',
        forall|i: int| 0 <= i < key_prefix(t).len() - 1 ==> key_prefix(t)[i] != '/',
{
    reveal_strlit("program/");
    reveal_strlit("stdin/");
    reveal_strlit("proof/");
    reveal_strlit("groth16-circuit/");
    reveal_strlit("plonk-circuit/");
    reveal_strlit("other/");
}

/// A key determines both the prefix and the id it was built from.
pub proof fn lemma_key_determines_prefix_and_id(
    t1: ArtifactType,
    id1: Seq<char>,
    t2: ArtifactType,
    id2: Seq<char>,
)
    requires
        gcs_key(t1, id1) == gcs_key(t2, id2),
    ensures
        key_prefix(t1) == key_prefix(t2),
        id1 == id2,
{
    let p1 = key_prefix(t1);
    let p2 = key_prefix(t2);
    let k = gcs_key(t1, id1);
    lemma_prefix_shape(t1);
    lemma_prefix_shape(t2);
    if p1.len() < p2.len() {
        assert(k[p1.len() - 1] == p1[p1.len() - 1]);
        assert(k[p1.len() - 1] == p2[p1.len() - 1]);
    } else if p2.len() < p1.len() {
        assert(k[p2.len() - 1] == p2[p2.len() - 1]);
        assert(k[p2.len() - 1] == p1[p2.len() - 1]);
    }
    assert(p1.len() == p2.len());
    assert(p1 =~= k.take(p1.len() as int));
    assert(p2 =~= k.take(p2.len() as int));
    assert(id1 =~= k.skip(p1.len() as int));
    assert(id2 =~= k.skip(p2.len() as int));
}

/// Two different artifact types share a prefix only when neither has a
/// prefix of its own.
pub proof fn lemma_distinct_types_distinct_prefixes(t1: ArtifactType, t2: ArtifactType)
    requires
        t1 != t2,
        has_own_prefix(t1) || has_own_prefix(t2),
    ensures
        key_prefix(t1) != key_prefix(t2),
{
    reveal_strlit("program/");
    reveal_strlit("stdin/");
    reveal_strlit("proof/");
    reveal_strlit("groth16-circuit/");
    reveal_strlit("plonk-circuit/");
    reveal_strlit("other/");
    assert(key_prefix(t1).len() != key_prefix(t2).len() || key_prefix(t1)[0] != key_prefix(t2)[0]);
}

/// Two artifacts get the same key only when they have the same id and their
/// types share a prefix: the same type, or two types without a prefix of
/// their own.
pub proof fn lemma_keys_never_collide(
    t1: ArtifactType,
    id1: Seq<char>,
    t2: ArtifactType,
    id2: Seq<char>,
)
    requires
        id1 != id2 || (t1 != t2 && (has_own_prefix(t1) || has_own_prefix(t2))),
    ensures
        gcs_key(t1, id1) != gcs_key(t2, id2),
{
    if gcs_key(t1, id1) == gcs_key(t2, id2) {
        lemma_key_determines_prefix_and_id(t1, id1, t2, id2);
        if t1 != t2 && (has_own_prefix(t1) || has_own_prefix(t2)) {
            lemma_distinct_types_distinct_prefixes(t1, t2);
        }
    }
}

/// The key of an artifact is its type's fixed prefix followed by its id,
/// verbatim: `program/`, `stdin/`, `proof/`, `groth16-circuit/`,
/// `plonk-circuit/`, or `other/` for the types without a prefix of their
/// own; the key is as long as prefix and id together, and dropping the
/// prefix leaves exactly the id.
pub proof fn lemma_key_layout(t: ArtifactType, id: Seq<char>)
    ensures
        gcs_key(t, id).len() == key_prefix(t).len() + id.len(),
        gcs_key(t, id).take(key_prefix(t).len() as int) == key_prefix(t),
        gcs_key(t, id).skip(key_prefix(t).len() as int) == id,
        t == ArtifactType::Program ==> gcs_key(t, id) == "program/"@ + id,
        t == ArtifactType::Stdin ==> gcs_key(t, id) == "stdin/"@ + id,
        t == ArtifactType::Proof ==> gcs_key(t, id) == "proof/"@ + id,
        t == ArtifactType::Groth16Circuit ==> gcs_key(t, id) == "groth16-circuit/"@ + id,
        t == ArtifactType::PlonkCircuit ==> gcs_key(t, id) == "plonk-circuit/"@ + id,
        t == ArtifactType::UnspecifiedArtifactType ==> gcs_key(t, id) == "other/"@ + id,
        t == ArtifactType::PrivateStdin ==> gcs_key(t, id) == "other/"@ + id,
{
    assert(gcs_key(t, id).take(key_prefix(t).len() as int) =~= key_prefix(t));
    assert(gcs_key(t, id).skip(key_prefix(t).len() as int) =~= id);
}

} // verus!
