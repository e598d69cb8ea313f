//! Bind-mount deny-list enforcement, on a sandbox whose host tree is held in
//! memory.

use mount_deny::passthroughfs::access::{
    answer, check_access, check_rename, is_entry_denied, visible_entries, Access, Entry,
    LINUX_EACCES, LINUX_ENOENT,
};
use mount_deny::passthroughfs::deny::DenyList;
use std::cell::RefCell;

const ROOT_INODE: u64 = 1;
/// The inode after the root's, which the sandbox keeps for itself.
const RESERVED_INODE: u64 = 2;
const LINUX_EEXIST: i32 = 17;

struct Node {
    path: Vec<Vec<u8>>,
    is_dir: bool,
    data: Vec<u8>,
}

struct Found {
    inode: u64,
}

/// A mount with a deny list over a host tree.
struct TestSandbox {
    deny: DenyList,
    host: RefCell<Vec<Node>>,
    inodes: RefCell<Vec<(u64, Vec<Vec<u8>>)>>,
}

fn split(path: &str) -> Vec<Vec<u8>> {
    path.split('/').map(|c| c.as_bytes().to_vec()).collect()
}

fn child(parent: &[Vec<u8>], name: &str) -> Vec<Vec<u8>> {
    let mut path = parent.to_vec();
    path.push(name.as_bytes().to_vec());
    path
}

impl TestSandbox {
    fn with_deny(deny: Vec<String>) -> TestSandbox {
        TestSandbox {
            deny: DenyList::new(false, &deny),
            host: RefCell::new(Vec::new()),
            inodes: RefCell::new(vec![(ROOT_INODE, Vec::new())]),
        }
    }

    fn assert_errno<T>(result: Result<T, i32>, errno: i32) {
        match result {
            Ok(_) => panic!("expected errno {}", errno),
            Err(got) => assert_eq!(got, errno),
        }
    }

    fn host_create_file(&self, path: &str, data: &[u8]) {
        let node = Node { path: split(path), is_dir: false, data: data.to_vec() };
        self.host.borrow_mut().push(node);
    }

    fn host_create_dir(&self, path: &str) {
        let node = Node { path: split(path), is_dir: true, data: Vec::new() };
        self.host.borrow_mut().push(node);
    }

    fn host_kind(&self, path: &[Vec<u8>]) -> Option<bool> {
        self.host.borrow().iter().find(|n| n.path == path).map(|n| n.is_dir)
    }

    fn path_of(&self, inode: u64) -> Vec<Vec<u8>> {
        let inodes = self.inodes.borrow();
        inodes.iter().find(|(i, _)| *i == inode).unwrap().1.clone()
    }

    fn inode_of(&self, path: Vec<Vec<u8>>) -> u64 {
        let mut inodes = self.inodes.borrow_mut();
        if let Some((inode, _)) = inodes.iter().find(|(_, p)| *p == path) {
            return *inode;
        }
        let inode = RESERVED_INODE + inodes.len() as u64;
        inodes.push((inode, path));
        inode
    }

    fn check(&self, access: Access, parent: u64, name: &str, is_dir: bool) -> Result<(), i32> {
        check_access(&self.deny, access, &self.path_of(parent), name.as_bytes(), is_dir)
    }

    fn lookup(&self, parent: u64, name: &str) -> Result<Found, i32> {
        let path = child(&self.path_of(parent), name);
        let kind = self.host_kind(&path);
        self.check(Access::Lookup, parent, name, kind == Some(true))?;
        match kind {
            None => Err(LINUX_ENOENT),
            Some(_) => Ok(Found { inode: self.inode_of(path) }),
        }
    }

    fn lookup_root(&self, name: &str) -> Result<Found, i32> {
        self.lookup(ROOT_INODE, name)
    }

    fn make(&self, access: Access, parent: u64, name: &str, is_dir: bool) -> Result<Found, i32> {
        self.check(access, parent, name, is_dir)?;
        let path = child(&self.path_of(parent), name);
        if self.host_kind(&path).is_some() {
            return Err(LINUX_EEXIST);
        }
        self.host.borrow_mut().push(Node { path: path.clone(), is_dir, data: Vec::new() });
        Ok(Found { inode: self.inode_of(path) })
    }

    fn fuse_create(&self, parent: u64, name: &str) -> Result<Found, i32> {
        self.make(Access::Create, parent, name, false)
    }

    fn fuse_create_root(&self, name: &str) -> Result<Found, i32> {
        self.fuse_create(ROOT_INODE, name)
    }

    fn fuse_mkdir_root(&self, name: &str) -> Result<Found, i32> {
        self.make(Access::Mkdir, ROOT_INODE, name, true)
    }

    fn remove(&self, access: Access, parent: u64, name: &str, is_dir: bool) -> Result<(), i32> {
        self.check(access, parent, name, is_dir)?;
        let path = child(&self.path_of(parent), name);
        if self.host_kind(&path) != Some(is_dir) {
            return Err(LINUX_ENOENT);
        }
        self.host.borrow_mut().retain(|n| n.path != path);
        Ok(())
    }

    fn unlink(&self, parent: u64, name: &str) -> Result<(), i32> {
        self.remove(Access::Unlink, parent, name, false)
    }

    fn rmdir(&self, parent: u64, name: &str) -> Result<(), i32> {
        self.remove(Access::Rmdir, parent, name, true)
    }

    fn rename(&self, parent: u64, name: &str, to_parent: u64, to_name: &str) -> Result<(), i32> {
        let (from_dir, to_dir) = (self.path_of(parent), self.path_of(to_parent));
        let from = child(&from_dir, name);
        let kind = self.host_kind(&from);
        check_rename(
            &self.deny,
            &from_dir,
            name.as_bytes(),
            &to_dir,
            to_name.as_bytes(),
            kind == Some(true),
        )?;
        if kind.is_none() {
            return Err(LINUX_ENOENT);
        }
        for node in self.host.borrow_mut().iter_mut() {
            if node.path == from {
                node.path = child(&to_dir, to_name);
            }
        }
        Ok(())
    }

    fn readdir(&self, inode: u64, size: usize) -> Result<Vec<Entry>, i32> {
        let dir = self.path_of(inode);
        let entries: Vec<Entry> = self
            .host
            .borrow()
            .iter()
            .filter(|n| n.path.len() == dir.len() + 1 && n.path.starts_with(&dir))
            .map(|n| Entry { name: n.path[dir.len()].clone(), is_dir: n.is_dir })
            .collect();
        let mut shown = visible_entries(&self.deny, &dir, entries);
        shown.truncate(size);
        Ok(shown)
    }

    fn fuse_write(&self, inode: u64, data: &[u8]) -> Result<usize, i32> {
        let path = self.path_of(inode);
        for node in self.host.borrow_mut().iter_mut() {
            if node.path == path {
                node.data = data.to_vec();
                return Ok(data.len());
            }
        }
        Err(LINUX_ENOENT)
    }

    fn fuse_read(&self, inode: u64, size: usize) -> Result<Vec<u8>, i32> {
        let path = self.path_of(inode);
        let host = self.host.borrow();
        let node = host.iter().find(|n| n.path == path).ok_or(LINUX_ENOENT)?;
        Ok(node.data.iter().take(size).copied().collect())
    }
}

/// A denied basename is invisible via lookup.
#[test]
fn test_deny_basename_lookup() {
    let sb = TestSandbox::with_deny(vec![".env".to_string()]);
    sb.host_create_file(".env", b"secret");
    sb.host_create_file("visible.txt", b"ok");

    TestSandbox::assert_errno(sb.lookup_root(".env"), LINUX_ENOENT);

    // Non-denied file still works.
    let entry = sb.lookup_root("visible.txt").unwrap();
    assert_eq!(entry.inode, 3);
}

/// Creating a denied basename returns EACCES.
#[test]
fn test_deny_create_rejected() {
    let sb = TestSandbox::with_deny(vec![".secrets".to_string()]);

    TestSandbox::assert_errno(sb.fuse_create_root(".secrets"), LINUX_EACCES);

    // Normal create still works.
    let entry = sb.fuse_create_root("normal.txt").unwrap();
    assert_eq!(entry.inode, 3);
}

/// Creating a hidden directory returns EACCES from the deny list.
#[test]
fn test_deny_mkdir_rejected() {
    let sb =
        TestSandbox::with_deny(vec![".hidden_dir".to_string(), "no_create.txt".to_string()]);

    TestSandbox::assert_errno(sb.fuse_mkdir_root(".hidden_dir"), LINUX_EACCES);

    // Normal dirs work.
    sb.fuse_mkdir_root("visible_dir").unwrap();

    // Verify visible_dir is accessible.
    sb.lookup_root("visible_dir").unwrap();
}

/// Renaming into a denied target name returns EACCES.
#[test]
fn test_deny_rename_to_denied_target() {
    let sb = TestSandbox::with_deny(vec![".forbidden".to_string()]);

    // Create a source file first.
    let _entry = sb.fuse_create_root("source.txt").unwrap();

    // Rename to denied name.
    TestSandbox::assert_errno(
        sb.rename(ROOT_INODE, "source.txt", ROOT_INODE, ".forbidden"),
        LINUX_EACCES,
    );

    // Rename to normal name still works.
    sb.rename(ROOT_INODE, "source.txt", ROOT_INODE, "renamed.txt").unwrap();

    // Verify renamed file is accessible.
    sb.lookup_root("renamed.txt").unwrap();
}

/// Denied entries are omitted from readdir.
#[test]
fn test_deny_readdir_omits_entries() {
    let sb = TestSandbox::with_deny(vec![".env".to_string(), "*.log".to_string()]);
    sb.host_create_file(".env", b"hidden");
    sb.host_create_file("data.log", b"hidden");
    sb.host_create_file("visible.txt", b"ok");

    let entries = sb.readdir(ROOT_INODE, 4096).unwrap();

    let has_env = entries.iter().any(|e| e.name == b".env");
    let has_log = entries.iter().any(|e| e.name == b"data.log");
    let has_visible = entries.iter().any(|e| e.name == b"visible.txt");

    assert!(!has_env, ".env should be hidden from readdir");
    assert!(!has_log, "data.log should be hidden from readdir");
    assert!(has_visible, "visible.txt should be in readdir");
}

/// Unlink of a denied name returns EACCES.
#[test]
fn test_deny_unlink_rejected() {
    let sb = TestSandbox::with_deny(vec![".do-not-delete".to_string()]);

    // Create a hidden file.
    sb.host_create_file(".do-not-delete", b"protected");

    // Unlink should fail with EACCES (denied by deny-list).
    TestSandbox::assert_errno(sb.unlink(ROOT_INODE, ".do-not-delete"), LINUX_EACCES);
}

/// Rmdir of a denied directory returns EACCES.
#[test]
fn test_deny_rmdir_rejected() {
    let sb = TestSandbox::with_deny(vec![".protected-dir".to_string()]);

    // Create a hidden directory.
    sb.host_create_dir(".protected-dir");

    // Rmdir should fail with EACCES.
    TestSandbox::assert_errno(sb.rmdir(ROOT_INODE, ".protected-dir"), LINUX_EACCES);
}

/// Non-denied names remain fully read-write.
#[test]
fn test_deny_normal_ops_unchanged() {
    let sb = TestSandbox::with_deny(vec![".env".to_string()]);

    // Create, write, read all work on non-denied names.
    let entry = sb.fuse_create_root("writeable.txt").unwrap();
    let written = sb.fuse_write(entry.inode, b"hello deny").unwrap();
    assert_eq!(written, 10);

    let data = sb.fuse_read(entry.inode, 10).unwrap();
    assert_eq!(data, b"hello deny");

    // Unlink works on normal files.
    sb.unlink(ROOT_INODE, "writeable.txt").unwrap();

    // After unlink, lookup returns ENOENT.
    TestSandbox::assert_errno(sb.lookup_root("writeable.txt"), LINUX_ENOENT);
}

/// A nested path pattern hides the matching path but not its siblings.
#[test]
fn test_deny_path_pattern_lookup() {
    let sb = TestSandbox::with_deny(vec!["sub/.env".to_string()]);
    sb.host_create_dir("sub");
    sb.host_create_file("sub/.env", b"secret");
    sb.host_create_file("sub/visible.txt", b"ok");

    // The parent dir is reachable.
    let dir = sb.lookup_root("sub").unwrap();
    assert_eq!(dir.inode, 3);

    // The denied nested file is hidden.
    TestSandbox::assert_errno(sb.lookup(dir.inode, ".env"), LINUX_ENOENT);

    // A sibling in the same dir is visible.
    let visible = sb.lookup(dir.inode, "visible.txt").unwrap();
    assert_eq!(visible.inode, 4);
}

/// A recursive path pattern hides nested matches at any depth.
#[test]
fn test_deny_recursive_path_pattern() {
    let sb = TestSandbox::with_deny(vec!["**/env.secret".to_string()]);
    sb.host_create_dir("a");
    sb.host_create_dir("a/b");
    sb.host_create_file("a/b/env.secret", b"secret");

    let a = sb.lookup_root("a").unwrap();
    let b = sb.lookup(a.inode, "b").unwrap();
    TestSandbox::assert_errno(sb.lookup(b.inode, "env.secret"), LINUX_ENOENT);
}

/// Path patterns also gate create within a hidden subtree.
#[test]
fn test_deny_path_pattern_create() {
    let sb = TestSandbox::with_deny(vec!["sub/.secret".to_string()]);
    sb.host_create_dir("sub");
    let dir = sb.lookup_root("sub").unwrap();

    TestSandbox::assert_errno(sb.fuse_create(dir.inode, ".secret"), LINUX_EACCES);

    // Sibling create is unaffected.
    sb.fuse_create(dir.inode, "normal.txt").unwrap();
}

/// Renaming a denied source name away is rejected.
#[test]
fn test_deny_rename_from_denied_source() {
    let sb = TestSandbox::with_deny(vec![".forbidden".to_string()]);

    // A denied name already exists on the host.
    sb.host_create_file(".forbidden", b"hidden");

    // Renaming it away is rejected.
    TestSandbox::assert_errno(
        sb.rename(ROOT_INODE, ".forbidden", ROOT_INODE, "freed.txt"),
        LINUX_EACCES,
    );
}

#[test]
fn every_refused_access_has_its_errno() {
    assert_eq!(answer(Access::Lookup, true), Err(2));
    for access in [Access::Create, Access::Mkdir, Access::Unlink, Access::Rmdir, Access::Rename] {
        assert_eq!(answer(access, true), Err(13));
        assert_eq!(answer(access, false), Ok(()));
    }
    assert_eq!(answer(Access::Lookup, false), Ok(()));
}

#[test]
fn dir_only_patterns_leave_files_alone() {
    let sb = TestSandbox::with_deny(vec!["build/".to_string()]);
    TestSandbox::assert_errno(sb.fuse_mkdir_root("build"), LINUX_EACCES);
    sb.fuse_create_root("build").unwrap();
    sb.lookup_root("build").unwrap();
    assert_eq!(sb.readdir(ROOT_INODE, 4096).unwrap().len(), 1);
}

#[test]
fn what_is_listed_can_be_found() {
    let sb = TestSandbox::with_deny(
        vec!["*".to_string(), "!keep*".to_string(), "keep.old/".to_string()],
    );
    sb.host_create_file("keep.txt", b"");
    sb.host_create_dir("keep.old");
    sb.host_create_dir("keep.new");
    sb.host_create_file("other", b"");
    let listed: Vec<Vec<u8>> =
        sb.readdir(ROOT_INODE, 4096).unwrap().into_iter().map(|e| e.name).collect();
    assert_eq!(listed, vec![b"keep.txt".to_vec(), b"keep.new".to_vec()]);
    for name in ["keep.txt", "keep.old", "keep.new", "other"] {
        let found = sb.lookup_root(name).is_ok();
        assert_eq!(found, listed.contains(&name.as_bytes().to_vec()), "{}", name);
    }
}

#[test]
fn entries_are_denied_by_their_path() {
    let parent = [b"a".to_vec(), b"b".to_vec()];
    for patterns in [vec!["b/c", "a/b/d"], vec!["c", "d"], vec!["a/**", "!c"]] {
        let owned: Vec<String> = patterns.iter().map(|s| s.to_string()).collect();
        let list = DenyList::new(false, &owned);
        for name in ["c", "d", "e"] {
            let path = format!("a/b/{}", name);
            assert_eq!(
                is_entry_denied(&list, &parent, name.as_bytes(), false),
                list.matches_path(path.as_bytes(), false),
                "{:?} {}",
                patterns,
                name
            );
        }
    }
}
