//! Identities of sessions.
use tear::address::Address;
use tear::genesis::{hash_node, text_leaf, Genesis, LEAF_DOMAIN, NODE_DOMAIN};


fn addr(s: &str) -> Address {
    Address::parse(s).expect("test fixture must be a legal address")
}

fn sample() -> Genesis {
    Genesis {
        program: "/bin/zsh".into(),
        requested_address: addr("work.acme.helm-charts.build"),
        args: vec!["-l".into()],
        cwd: "/code/acme/helm-charts".into(),
        parent: None,
    }
}

#[test]
fn the_same_genesis_always_derives_the_same_guid() {
    assert_eq!(sample().guid(), sample().guid());
    let g = sample();
    assert_eq!(g.guid(), g.guid());
}

#[test]
fn the_guid_is_a_full_256_bit_root_not_a_truncation() {
    let guid = sample().guid();
    assert_eq!(guid.as_bytes().len(), 32);
    assert_eq!(guid.to_hex().len(), 64);
    assert!(
        guid.as_bytes()[8..].iter().any(|b| *b != 0),
        "bytes past the first 8 must not be dropped"
    );
    assert_eq!(guid.short(), &guid.to_hex()[..16]);
}

#[test]
fn a_different_program_derives_a_different_guid() {
    let mut other = sample();
    other.program = "/bin/bash".into();
    assert_ne!(sample().guid(), other.guid());
}

#[test]
fn a_different_requested_address_derives_a_different_guid() {
    let mut other = sample();
    other.requested_address = addr("work.acme.helm-charts.test");
    assert_ne!(sample().guid(), other.guid());
}

#[test]
fn different_args_derive_a_different_guid() {
    let mut other = sample();
    other.args = vec!["-i".into()];
    assert_ne!(sample().guid(), other.guid());

    let mut none = sample();
    none.args = Vec::new();
    assert_ne!(sample().guid(), none.guid());
    assert_ne!(other.guid(), none.guid());
}

#[test]
fn a_different_cwd_derives_a_different_guid() {
    let mut other = sample();
    other.cwd = "/code/acme/cli".into();
    assert_ne!(sample().guid(), other.guid());
}

#[test]
fn a_different_parent_derives_a_different_guid() {
    let parent_a = sample().guid();
    let parent_b = Genesis::new("/bin/bash", addr("work.other"), "/tmp").guid();
    assert_ne!(parent_a, parent_b);

    let orphan = sample();
    let under_a = sample().with_parent(parent_a);
    let under_b = sample().with_parent(parent_b);

    assert_ne!(orphan.guid(), under_a.guid());
    assert_ne!(orphan.guid(), under_b.guid());
    assert_ne!(under_a.guid(), under_b.guid());
}

#[test]
fn every_leaf_is_load_bearing() {
    let base = sample();
    let mut variants = vec![base.guid()];

    let mut v = base.clone();
    v.program = "/bin/bash".into();
    variants.push(v.guid());

    let mut v = base.clone();
    v.requested_address = addr("work.other");
    variants.push(v.guid());

    let mut v = base.clone();
    v.args = vec!["-l".into(), "-i".into()];
    variants.push(v.guid());

    let mut v = base.clone();
    v.cwd = "/elsewhere".into();
    variants.push(v.guid());

    let v = base.clone().with_parent(base.guid());
    variants.push(v.guid());

    let mut seen = std::collections::BTreeSet::new();
    for g in &variants {
        assert!(seen.insert(g.to_hex()), "leaf perturbation collided: {g:?}");
    }
    assert_eq!(seen.len(), 6);
}

#[test]
fn args_are_length_framed_not_concatenated() {
    let split = sample().with_args(args(&["a", "b"]));
    let joined = sample().with_args(args(&["ab"]));
    let dotted = sample().with_args(args(&["a.b"]));
    assert_ne!(split.guid(), joined.guid());
    assert_ne!(split.guid(), dotted.guid());
    assert_ne!(joined.guid(), dotted.guid());

    let trailing_empty = sample().with_args(args(&["a", ""]));
    let bare = sample().with_args(args(&["a"]));
    assert_ne!(trailing_empty.guid(), bare.guid());
}

#[test]
fn a_parent_link_can_only_be_a_derived_guid() {
    let parent = Genesis::new("/bin/zsh", addr("work"), "/code");
    let child =
        Genesis::new("/bin/zsh", addr("work.build"), "/code").with_parent(parent.guid());
    assert_eq!(child.parent, Some(parent.guid()));
    assert_ne!(child.guid(), parent.guid());
}

#[test]
fn renaming_is_structurally_outside_the_hash() {
    let genesis = sample();
    let identity = genesis.guid();

    let mut live_alias = genesis.requested_address.clone();
    assert_eq!(live_alias.to_string(), "work.acme.helm-charts.build");
    live_alias = addr("archive.2026.helm-charts.build");

    assert_eq!(genesis.guid(), identity);
    assert_ne!(live_alias, genesis.requested_address);
}

#[test]
fn guid_display_and_debug_agree_on_the_hex() {
    let guid = sample().guid();
    assert_eq!(guid.to_string(), guid.to_hex());
    assert_eq!(guid.debug_text(), format!("Guid({})", guid.to_hex()));
}

#[test]
fn genesis_commits_to_exactly_program_intent_and_context() {
    let Genesis {
        program,
        requested_address,
        args,
        cwd,
        parent,
    } = sample();
    assert_eq!(program, "/bin/zsh");
    assert_eq!(requested_address.to_string(), "work.acme.helm-charts.build");
    assert_eq!(args, vec!["-l".to_string()]);
    assert_eq!(cwd, "/code/acme/helm-charts");
    assert!(parent.is_none());
}


fn args(v: &[&str]) -> Vec<String> {
    v.iter().map(|s| s.to_string()).collect()
}

fn framed(out: &mut Vec<u8>, bytes: &[u8]) {
    out.extend_from_slice(&(bytes.len() as u64).to_le_bytes());
    out.extend_from_slice(bytes);
}

fn leaf(label: &str, body: &[u8]) -> Vec<u8> {
    let mut out = vec![LEAF_DOMAIN];
    framed(&mut out, label.as_bytes());
    out.extend_from_slice(body);
    blake3::hash(&out).as_bytes().to_vec()
}

fn node(l: &[u8], r: &[u8]) -> Vec<u8> {
    let mut out = vec![NODE_DOMAIN];
    out.extend_from_slice(l);
    out.extend_from_slice(r);
    blake3::hash(&out).as_bytes().to_vec()
}

#[test]
fn the_root_is_a_tree_of_three_leaves() {
    let g = sample();
    let mut program = Vec::new();
    framed(&mut program, b"/bin/zsh");
    let mut intent = Vec::new();
    framed(&mut intent, b"work.acme.helm-charts.build");
    intent.extend_from_slice(&1u64.to_le_bytes());
    framed(&mut intent, b"-l");
    let mut context = Vec::new();
    framed(&mut context, b"/code/acme/helm-charts");
    context.push(0);
    let expected = node(
        &node(&leaf("tear.genesis.program.v1", &program), &leaf("tear.genesis.intent.v1", &intent)),
        &leaf("tear.genesis.context.v1", &context),
    );
    assert_eq!(g.guid().as_bytes().to_vec(), expected);
}

#[test]
fn the_digits_of_a_root_are_lowercase() {
    let hex = sample().guid().to_hex();
    assert!(hex.chars().all(|c| c.is_ascii_hexdigit() && !c.is_ascii_uppercase()));
}

#[test]
fn leaf_and_interior_domains_cannot_collide() {
    let l = text_leaf("x", "left");
    let r = text_leaf("x", "right");
    let interior = hash_node(&l, &r);
    let leafish = {
        let mut h = blake3::Hasher::new();
        h.update(&[LEAF_DOMAIN]);
        h.update(&l);
        h.update(&r);
        *h.finalize().as_bytes()
    };
    assert_ne!(interior, leafish, "domain prefixes must separate");
    assert_ne!(LEAF_DOMAIN, NODE_DOMAIN);
    let raw = *blake3::hash(b"left").as_bytes();
    assert_ne!(l, raw);
    let mut field = Vec::new();
    framed(&mut field, b"left");
    assert_eq!(l.to_vec(), leaf("x", &field));
}

#[test]
fn the_root_is_the_documented_tree_shape() {
    let g = sample();
    let (l0, l1, l2) = g.leaves();
    let expected = hash_node(&hash_node(&l0, &l1), &l2);
    assert_eq!(g.guid().as_bytes(), &expected);
    assert_ne!(l0, l1);
    assert_ne!(l1, l2);
    assert_ne!(l0, l2);
}
