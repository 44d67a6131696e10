use remote_term::store::CredentialPreset;
use remote_term::store::SessionConfig;
use remote_term::store::SessionGroup;
use remote_term::store::SessionNode;
use remote_term::store::SessionStore;
use remote_term::store::SshSessionConfig;

#[test]
fn test_add_to_root() {
    let mut store = SessionStore::new();
    let session = SessionConfig::new_ssh("Test", SshSessionConfig::new("host", 22));
    let id = session.id;

    store.add_node(SessionNode::Session(session), None);

    assert!(store.find_node(id).is_some());
}

#[test]
fn test_add_to_group() {
    let mut store = SessionStore::new();
    let group = SessionGroup::new("My Group");
    let group_id = group.id;
    store.add_node(SessionNode::Group(group), None);

    let session = SessionConfig::new_ssh("Test", SshSessionConfig::new("host", 22));
    let session_id = session.id;
    store.add_node(SessionNode::Session(session), Some(group_id));

    assert!(store.find_node(session_id).is_some());
    if let Some(SessionNode::Group(g)) = store.find_node(group_id) {
        assert_eq!(g.children.len(), 1);
    } else {
        panic!("Expected group");
    }
}

#[test]
fn test_remove_from_root() {
    let mut store = SessionStore::new();
    let session = SessionConfig::new_ssh("Test", SshSessionConfig::new("host", 22));
    let id = session.id;
    store.add_node(SessionNode::Session(session), None);

    assert!(store.remove_node(id));
    assert!(store.find_node(id).is_none());
}

#[test]
fn test_remove_from_nested_group() {
    let mut store = SessionStore::new();

    let mut outer_group = SessionGroup::new("Outer");
    let inner_group = SessionGroup::new("Inner");
    let inner_id = inner_group.id;
    outer_group.children.push(SessionNode::Group(inner_group));
    store.add_node(SessionNode::Group(outer_group), None);

    let session = SessionConfig::new_ssh("Test", SshSessionConfig::new("host", 22));
    let session_id = session.id;
    store.add_node(SessionNode::Session(session), Some(inner_id));

    assert!(store.find_node(session_id).is_some());
    assert!(store.remove_node(session_id));
    assert!(store.find_node(session_id).is_none());
}

#[test]
fn test_credential_preset_fields() {
    let preset = CredentialPreset::new("Default", "root", "password123");
    assert_eq!(preset.name, "Default");
    assert_eq!(preset.username, "root");
    assert_eq!(preset.password, "password123");
}

#[test]
fn test_find_node_location_at_root() {
    let mut store = SessionStore::new();
    let session1 = SessionConfig::new_ssh("First", SshSessionConfig::new("host1", 22));
    let session2 = SessionConfig::new_ssh("Second", SshSessionConfig::new("host2", 22));
    let id1 = session1.id;
    let id2 = session2.id;

    store.add_node(SessionNode::Session(session1), None);
    store.add_node(SessionNode::Session(session2), None);

    assert_eq!(store.find_node_location(id1), Some((None, 0)));
    assert_eq!(store.find_node_location(id2), Some((None, 1)));
}

#[test]
fn test_find_node_location_in_group() {
    let mut store = SessionStore::new();
    let group = SessionGroup::new("Group");
    let group_id = group.id;
    store.add_node(SessionNode::Group(group), None);

    let session = SessionConfig::new_ssh("Test", SshSessionConfig::new("host", 22));
    let session_id = session.id;
    store.add_node(SessionNode::Session(session), Some(group_id));

    assert_eq!(store.find_node_location(session_id), Some((Some(group_id), 0)));
}

#[test]
fn test_is_ancestor_of() {
    let mut store = SessionStore::new();

    let mut outer = SessionGroup::new("Outer");
    let inner = SessionGroup::new("Inner");
    let outer_id = outer.id;
    let inner_id = inner.id;
    outer.children.push(SessionNode::Group(inner));
    store.add_node(SessionNode::Group(outer), None);

    let session = SessionConfig::new_ssh("Test", SshSessionConfig::new("host", 22));
    let session_id = session.id;
    store.add_node(SessionNode::Session(session), Some(inner_id));

    assert!(store.is_ancestor_of(outer_id, inner_id));
    assert!(store.is_ancestor_of(outer_id, session_id));
    assert!(store.is_ancestor_of(inner_id, session_id));
    assert!(!store.is_ancestor_of(inner_id, outer_id));
    assert!(!store.is_ancestor_of(session_id, outer_id));
}

#[test]
fn test_move_node_within_root() {
    let mut store = SessionStore::new();
    let session1 = SessionConfig::new_ssh("First", SshSessionConfig::new("host1", 22));
    let session2 = SessionConfig::new_ssh("Second", SshSessionConfig::new("host2", 22));
    let session3 = SessionConfig::new_ssh("Third", SshSessionConfig::new("host3", 22));
    let id1 = session1.id;
    let id2 = session2.id;
    let id3 = session3.id;

    store.add_node(SessionNode::Session(session1), None);
    store.add_node(SessionNode::Session(session2), None);
    store.add_node(SessionNode::Session(session3), None);

    assert!(store.move_node(id3, None, 0));

    assert_eq!(store.root[0].id(), id3);
    assert_eq!(store.root[1].id(), id1);
    assert_eq!(store.root[2].id(), id2);
}

#[test]
fn test_move_node_into_group() {
    let mut store = SessionStore::new();
    let group = SessionGroup::new("Group");
    let group_id = group.id;
    store.add_node(SessionNode::Group(group), None);

    let session = SessionConfig::new_ssh("Test", SshSessionConfig::new("host", 22));
    let session_id = session.id;
    store.add_node(SessionNode::Session(session), None);

    assert_eq!(store.root.len(), 2);

    assert!(store.move_node(session_id, Some(group_id), 0));

    assert_eq!(store.root.len(), 1);
    if let Some(SessionNode::Group(g)) = store.find_node(group_id) {
        assert_eq!(g.children.len(), 1);
        assert_eq!(g.children[0].id(), session_id);
    } else {
        panic!("Expected group");
    }
}

#[test]
fn test_move_node_out_of_group() {
    let mut store = SessionStore::new();
    let group = SessionGroup::new("Group");
    let group_id = group.id;
    store.add_node(SessionNode::Group(group), None);

    let session = SessionConfig::new_ssh("Test", SshSessionConfig::new("host", 22));
    let session_id = session.id;
    store.add_node(SessionNode::Session(session), Some(group_id));

    assert!(store.move_node(session_id, None, 0));

    assert_eq!(store.root.len(), 2);
    assert_eq!(store.root[0].id(), session_id);
    if let Some(SessionNode::Group(g)) = store.find_node(group_id) {
        assert_eq!(g.children.len(), 0);
    } else {
        panic!("Expected group");
    }
}

#[test]
fn test_move_node_prevents_cycle() {
    let mut store = SessionStore::new();

    let mut outer = SessionGroup::new("Outer");
    let inner = SessionGroup::new("Inner");
    let outer_id = outer.id;
    let inner_id = inner.id;
    outer.children.push(SessionNode::Group(inner));
    store.add_node(SessionNode::Group(outer), None);

    assert!(!store.move_node(outer_id, Some(inner_id), 0));

    assert_eq!(store.root.len(), 1);
    assert_eq!(store.root[0].id(), outer_id);
}

#[test]
fn test_move_node_adjusts_index_when_moving_later_in_same_parent() {
    let mut store = SessionStore::new();
    let session1 = SessionConfig::new_ssh("First", SshSessionConfig::new("host1", 22));
    let session2 = SessionConfig::new_ssh("Second", SshSessionConfig::new("host2", 22));
    let session3 = SessionConfig::new_ssh("Third", SshSessionConfig::new("host3", 22));
    let id1 = session1.id;
    let id2 = session2.id;
    let id3 = session3.id;

    store.add_node(SessionNode::Session(session1), None);
    store.add_node(SessionNode::Session(session2), None);
    store.add_node(SessionNode::Session(session3), None);

    assert!(store.move_node(id1, None, 2));

    assert_eq!(store.root[0].id(), id2);
    assert_eq!(store.root[1].id(), id1);
    assert_eq!(store.root[2].id(), id3);
}

#[test]
fn test_toggle_and_expand_group() {
    let mut store = SessionStore::new();
    let group = SessionGroup::new("Group");
    let group_id = group.id;
    assert!(group.expanded);
    store.add_node(SessionNode::Group(group), None);

    assert!(store.toggle_group_expanded(group_id));
    if let Some(SessionNode::Group(g)) = store.find_node(group_id) {
        assert!(!g.expanded);
    } else {
        panic!("Expected group");
    }

    // Expanding a collapsed group reports a change; expanding again does not.
    assert!(store.expand_group(group_id));
    assert!(!store.expand_group(group_id));
    if let Some(SessionNode::Group(g)) = store.find_node(group_id) {
        assert!(g.expanded);
    } else {
        panic!("Expected group");
    }
}

#[test]
fn test_update_session_keeps_id() {
    let mut store = SessionStore::new();
    let session = SessionConfig::new_ssh("Old Name", SshSessionConfig::new("old.host", 22));
    let id = session.id;
    store.add_node(SessionNode::Session(session), None);

    let replacement = SessionConfig::new_ssh("New Name", SshSessionConfig::new("new.host", 2222));
    assert!(store.update_session(id, replacement));

    if let Some(SessionNode::Session(s)) = store.find_node(id) {
        assert_eq!(s.id, id);
        assert_eq!(s.name, "New Name");
    } else {
        panic!("Expected session");
    }
}

#[test]
fn test_credential_preset_store_ops() {
    let mut store = SessionStore::new();
    let preset = CredentialPreset::new("Admin", "admin", "admin123");
    let id = preset.id;
    store.add_credential_preset(preset);
    assert_eq!(store.credential_presets.len(), 1);
    assert_eq!(store.credential_presets[0].name, "Admin");

    assert!(store.update_credential_preset(id, "Root", "root", "rootpw"));
    assert_eq!(store.credential_presets[0].id, id);
    assert_eq!(store.credential_presets[0].username, "root");

    assert!(!store.remove_credential_preset(id.wrapping_add(1)));
    assert!(store.remove_credential_preset(id));
    assert!(store.credential_presets.is_empty());
}

#[test]
fn test_move_node_to_absent_parent_drops_node() {
    // Moving toward a destination that no group carries removes the node
    // from the tree: the caller was moving it out of every group in sight.
    let mut store = SessionStore::new();
    let session = SessionConfig::new_ssh("Test", SshSessionConfig::new("host", 22));
    let id = session.id;
    let absent = id.wrapping_add(1);
    store.add_node(SessionNode::Session(session), None);

    assert!(store.move_node(id, Some(absent), 0));
    assert!(store.find_node(id).is_none());
    assert!(store.root.is_empty());
}

#[test]
fn test_add_to_missing_parent_is_noop() {
    let mut store = SessionStore::new();
    let session = SessionConfig::new_ssh("Test", SshSessionConfig::new("host", 22));
    let id = session.id;
    let absent = id.wrapping_add(1);
    store.add_node(SessionNode::Session(session), Some(absent));
    assert!(store.find_node(id).is_none());
    assert!(store.root.is_empty());
}
