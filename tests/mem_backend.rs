use mogilefs::backend::MemBackend;
use mogilefs::error::MogError;
use mogilefs::location::BaseUrl;
use mogilefs::model::{MemDomain, MemFileInfo};
use mogilefs::requests::{CreateDomain, CreateOpen, Delete, FileInfo, GetPaths, ListKeys, Rename};

const TEST_HOST: &str = "test.host";
const TEST_BASE_PATH: &str = "base_path";
const TEST_DOMAIN: &str = "test_domain";
const TEST_KEY_1: &str = "test/key/1";
const TEST_KEY_2: &str = "test/key/2";
const TEST_CONTENT_1: &[u8] = b"This is test content";
const TEST_FULL_DOMAIN: &str = "test_full_domain";
const TEST_KEY_PREFIX_1: &str = "foo/prefix";
const TEST_KEY_PREFIX_2: &str = "bar/prefix";
const TEST_PREFIX_COUNT: u32 = 100;

fn b(s: &str) -> Vec<u8> {
    s.as_bytes().to_vec()
}

fn base_url() -> BaseUrl {
    BaseUrl::new(format!("http://{}", TEST_HOST).into_bytes(), vec![b(TEST_BASE_PATH)])
}

fn open(backend: &mut MemBackend, domain: &str, key: &str) {
    backend
        .create_open(&CreateOpen { domain: b(domain), class: None, key: b(key), multi_dest: true, size: None })
        .unwrap();
}

fn backend_fixture() -> MemBackend {
    let mut backend = MemBackend::new(base_url());
    backend.create_domain(&CreateDomain { domain: b(TEST_DOMAIN) }).unwrap();
    open(&mut backend, TEST_DOMAIN, TEST_KEY_1);
    backend.store_bytes_content(TEST_DOMAIN.as_bytes(), TEST_KEY_1.as_bytes(), TEST_CONTENT_1).unwrap();
    open(&mut backend, TEST_DOMAIN, TEST_KEY_2);
    backend
}

fn full_backend_fixture() -> MemBackend {
    let mut backend = MemBackend::new(base_url());
    backend.create_domain(&CreateDomain { domain: b(TEST_FULL_DOMAIN) }).unwrap();
    for i in 0..TEST_PREFIX_COUNT {
        open(&mut backend, TEST_FULL_DOMAIN, &format!("{}/key/{}", TEST_KEY_PREFIX_1, i + 1));
        open(&mut backend, TEST_FULL_DOMAIN, &format!("{}/key/{}", TEST_KEY_PREFIX_2, i + 1));
    }
    backend
}

fn list(backend: &MemBackend, domain: &str, prefix: Option<&str>, after: Option<&[u8]>, limit: Option<u32>) -> Vec<Vec<u8>> {
    let req = ListKeys { domain: b(domain), prefix: prefix.map(b), after: after.map(|a| a.to_vec()), limit };
    backend.list_keys(&req).unwrap().0
}

#[test]
fn backend_get_file() {
    let mut backend = backend_fixture();

    {
        let file = backend.file(TEST_DOMAIN.as_bytes(), TEST_KEY_1.as_bytes());
        assert!(
            matches!(file, Ok(Some(f)) if f.key() == TEST_KEY_1.as_bytes()),
            "Immutable present file was {:?}", file);
    }

    {
        let file = backend.file(TEST_DOMAIN.as_bytes(), b"test/key/3");
        assert!(matches!(file, Ok(None)), "Immutable missing file was {:?}", file);
    }

    {
        let file = backend.file_mut(TEST_DOMAIN.as_bytes(), TEST_KEY_1.as_bytes());
        assert!(
            matches!(file, Ok(Some(ref f)) if f.key() == TEST_KEY_1.as_bytes()),
            "Mutable present file was {:?}", file);
    }

    {
        let file = backend.file_mut(TEST_DOMAIN.as_bytes(), b"test/key/3");
        assert!(matches!(file, Ok(None)), "Mutable missing file was {:?}", file);
    }
}

#[test]
fn backend_create_domain() {
    let mut backend = backend_fixture();

    let create_result = backend.create_domain(&CreateDomain { domain: b("test_domain_2") });
    assert!(create_result.is_ok(), "Create new domain result was {:?}", create_result);

    assert!(backend.domain(b"test_domain_2").is_some());

    let create_dup_result = backend.create_domain(&CreateDomain { domain: b(TEST_DOMAIN) });
    assert!(
        matches!(create_dup_result, Err(MogError::DomainExists(ref d)) if d == TEST_DOMAIN.as_bytes()),
        "Create duplicate domain result was {:?}", create_dup_result);
}

#[test]
fn backend_create_open() {
    let mut backend = backend_fixture();

    let req = CreateOpen { domain: b(TEST_DOMAIN), class: None, key: b("test/key/3"), multi_dest: true, size: None };
    let co_result = backend.create_open(&req);
    assert!(co_result.is_ok());
    let co_response = co_result.unwrap();
    assert_eq!(1, co_response.paths.len());
    assert_eq!(
        format!("http://{}/{}/d/{}/k/{}", TEST_HOST, TEST_BASE_PATH, TEST_DOMAIN, "test/key/3").into_bytes(),
        co_response.paths[0].1);

    let file = backend.file(TEST_DOMAIN.as_bytes(), b"test/key/3");
    assert!(matches!(file, Ok(Some(..))), "Create opened file was {:?}", file);
    let file = file.unwrap().unwrap();
    assert_eq!(b"test/key/3", file.key());
    assert!(file.content.is_none());
    assert!(file.size.is_none());

    let req = CreateOpen { domain: b(TEST_DOMAIN), class: None, key: b(TEST_KEY_1), multi_dest: true, size: None };
    let co_result = backend.create_open(&req);
    assert!(co_result.is_ok(), "Create open with duplicate key result was {:?}", co_result);
    let co_response = co_result.unwrap();
    assert_eq!(1, co_response.paths.len());
    assert_eq!(
        format!("http://{}/{}/d/{}/k/{}", TEST_HOST, TEST_BASE_PATH, TEST_DOMAIN, TEST_KEY_1).into_bytes(),
        co_response.paths[0].1);
}

#[test]
fn domain_list_keys() {
    let backend = backend_fixture();
    let keys = list(&backend, TEST_DOMAIN, None, None, None);
    assert_eq!(vec![b(TEST_KEY_1), b(TEST_KEY_2)], keys);
}

#[test]
fn domain_list_keys_limit() {
    let backend = full_backend_fixture();
    let keys = list(&backend, TEST_FULL_DOMAIN, None, None, Some(10));
    assert_eq!(10, keys.len());
    assert!(keys[0] < keys[9]);
}

#[test]
fn domain_list_keys_after() {
    let backend = full_backend_fixture();
    let first_list = list(&backend, TEST_FULL_DOMAIN, None, None, Some(10));
    let after_key = first_list.iter().last().unwrap().clone();

    let keys = list(&backend, TEST_FULL_DOMAIN, None, Some(&after_key), None);
    assert!(after_key < keys[0]);
    assert!(&keys[0] < keys.iter().last().unwrap());
}

#[test]
fn domain_list_keys_prefix() {
    let backend = full_backend_fixture();
    let keys = list(&backend, TEST_FULL_DOMAIN, Some(TEST_KEY_PREFIX_1), None, None);
    for key in keys.iter() {
        assert!(key.starts_with(TEST_KEY_PREFIX_1.as_bytes()), "key {:?} doesn't start with {:?}", key, TEST_KEY_PREFIX_1);
    }
}

#[test]
fn domain_list_keys_with_prefix_and_after() {
    let backend = full_backend_fixture();
    let keys = list(&backend, TEST_FULL_DOMAIN, Some(TEST_KEY_PREFIX_2), Some(b"bar/prefix/key/98"), Some(10));
    for key in keys.iter() {
        assert!(key.starts_with(TEST_KEY_PREFIX_2.as_bytes()), "key {:?} doesn't start with {:?}", key, TEST_KEY_PREFIX_2);
    }
    assert_eq!(vec![b("bar/prefix/key/99")], keys);
}

#[test]
fn domain_delete_key() {
    let mut backend = backend_fixture();

    let delete_result = backend.delete(&Delete { domain: b(TEST_DOMAIN), key: b(TEST_KEY_1) });
    assert!(matches!(delete_result, Ok(())));

    assert!(backend.domain(TEST_DOMAIN.as_bytes()).unwrap().file(TEST_KEY_1.as_bytes()).is_none());

    let delete_result_2 = backend.delete(&Delete { domain: b(TEST_DOMAIN), key: b(TEST_KEY_1) });
    assert!(matches!(delete_result_2, Err(MogError::UnknownKey(ref k)) if k == TEST_KEY_1.as_bytes()));
}

#[test]
fn url_for_key() {
    let backend = backend_fixture();
    assert_eq!(
        format!("http://{}/{}/d/{}/k/{}", TEST_HOST, TEST_BASE_PATH, TEST_DOMAIN, TEST_KEY_1).into_bytes(),
        backend.url_for_key(TEST_DOMAIN.as_bytes(), TEST_KEY_1.as_bytes()));
}

#[test]
fn get_content() {
    let backend = backend_fixture();
    let content = backend.get_content(TEST_DOMAIN.as_bytes(), TEST_KEY_1.as_bytes()).unwrap_or_else(|e| {
        panic!("Error retrieving content from {:?}: {:?}", TEST_KEY_1, e);
    });
    assert_eq!(TEST_CONTENT_1, &content[..]);
}

#[test]
fn get_content_unknown_key() {
    let backend = backend_fixture();
    let result = backend.get_content(TEST_DOMAIN.as_bytes(), b"test/key/3");
    assert!(matches!(result.unwrap_err(), MogError::UnknownKey(ref k) if k == b"test/key/3"));
}

#[test]
fn get_content_no_content() {
    let backend = backend_fixture();
    let result = backend.get_content(TEST_DOMAIN.as_bytes(), TEST_KEY_2.as_bytes());
    assert!(matches!(result.unwrap_err(), MogError::NoContent(ref k) if k == TEST_KEY_2.as_bytes()));
}

#[test]
fn store_replace_content() {
    let mut backend = backend_fixture();
    let new_content = Vec::from("This is new test content");
    backend.store_bytes_content(TEST_DOMAIN.as_bytes(), TEST_KEY_1.as_bytes(), &new_content).unwrap_or_else(|e| {
        panic!("Error storing content to {:?}: {:?}", TEST_KEY_1, e);
    });
    let file = backend.domain(TEST_DOMAIN.as_bytes()).unwrap().file(TEST_KEY_1.as_bytes()).unwrap();
    assert_eq!(&new_content, file.content.as_ref().unwrap());
}

#[test]
fn store_new_content() {
    let mut backend = backend_fixture();
    let new_content = Vec::from("This is new test content");
    backend.store_bytes_content(TEST_DOMAIN.as_bytes(), TEST_KEY_2.as_bytes(), &new_content).unwrap_or_else(|e| {
        panic!("Error storing content to {:?}: {:?}", TEST_KEY_2, e);
    });
    let file = backend.domain(TEST_DOMAIN.as_bytes()).unwrap().file(TEST_KEY_2.as_bytes()).unwrap();
    assert_eq!(&new_content, file.content.as_ref().unwrap());
}

#[test]
fn store_content_to_unknown_key() {
    let mut backend = backend_fixture();
    let new_content: &[u8] = b"This is new test content";
    assert!(matches!(backend.store_bytes_content(TEST_DOMAIN.as_bytes(), b"test/key/3", new_content).unwrap_err(),
                     MogError::UnknownKey(ref k) if k == b"test/key/3"));
}

#[test]
fn file_info_requires_content() {
    let mut backend = backend_fixture();
    let missing = backend.file_info(&FileInfo { domain: b(TEST_DOMAIN), key: b(TEST_KEY_2) });
    assert!(matches!(missing, Err(MogError::NoContent(ref k)) if k == TEST_KEY_2.as_bytes()));
    let unknown = backend.file_info(&FileInfo { domain: b(TEST_DOMAIN), key: b("nope") });
    assert!(matches!(unknown, Err(MogError::UnknownKey(ref k)) if k == b"nope"));
    backend.store_bytes_content(TEST_DOMAIN.as_bytes(), TEST_KEY_2.as_bytes(), b"abc").unwrap();
    let info = backend.file_info(&FileInfo { domain: b(TEST_DOMAIN), key: b(TEST_KEY_2) }).unwrap();
    assert_eq!(3, info.length);
    assert_eq!(1, info.devcount);
    assert_eq!(b"default".to_vec(), info.class);
    assert_eq!(b(TEST_KEY_2), info.key);
}

#[test]
fn store_then_read_back() {
    let mut backend = MemBackend::new(base_url());
    open(&mut backend, "d", "k");
    backend.store_bytes_content(b"d", b"k", b"hello bytes").unwrap();
    assert_eq!(b"hello bytes".to_vec(), backend.get_content(b"d", b"k").unwrap());
    let info = backend.file_info(&FileInfo { domain: b("d"), key: b("k") }).unwrap();
    assert_eq!(11, info.length);
    let meta = backend.file_metadata(b"d", b"k").unwrap();
    assert_eq!(11, meta.size);
}

#[test]
fn fids_count_up_from_one() {
    let mut backend = MemBackend::new(base_url());
    backend.create_domain(&CreateDomain { domain: b("a") }).unwrap();
    backend.create_domain(&CreateDomain { domain: b("b") }).unwrap();
    let first = backend.create_open(&CreateOpen { domain: b("a"), class: None, key: b("x"), multi_dest: false, size: None }).unwrap();
    let second = backend.create_open(&CreateOpen { domain: b("b"), class: None, key: b("x"), multi_dest: false, size: None }).unwrap();
    assert_eq!(1, first.fid);
    assert_eq!(2, second.fid);
}

#[test]
fn rename_keeps_record() {
    let mut backend = backend_fixture();
    let before = backend.file(TEST_DOMAIN.as_bytes(), TEST_KEY_1.as_bytes()).unwrap().unwrap().fid();
    backend.rename(&Rename { domain: b(TEST_DOMAIN), from_key: b(TEST_KEY_1), to_key: b("moved") }).unwrap();
    let moved = backend.file(TEST_DOMAIN.as_bytes(), b"moved").unwrap().unwrap();
    assert_eq!(before, moved.fid());
    assert_eq!(b"moved", moved.key());
    assert_eq!(Some(TEST_CONTENT_1.to_vec()), moved.content.clone());
    assert!(backend.get_paths(&GetPaths { domain: b(TEST_DOMAIN), key: b("moved") }).is_ok());
    assert!(matches!(backend.get_paths(&GetPaths { domain: b(TEST_DOMAIN), key: b(TEST_KEY_1) }),
                     Err(MogError::UnknownKey(ref k)) if k == TEST_KEY_1.as_bytes()));
}

#[test]
fn rename_collision_and_missing() {
    let mut backend = backend_fixture();
    let r = backend.rename(&Rename { domain: b(TEST_DOMAIN), from_key: b(TEST_KEY_1), to_key: b(TEST_KEY_2) });
    assert!(matches!(r, Err(MogError::KeyExists(ref k)) if k == TEST_KEY_2.as_bytes()));
    let r = backend.rename(&Rename { domain: b(TEST_DOMAIN), from_key: b("nope"), to_key: b("other") });
    assert!(matches!(r, Err(MogError::UnknownKey(ref k)) if k == b"nope"));
}

#[test]
fn create_class_is_echoed() {
    let backend = backend_fixture();
    let req = mogilefs::requests::CreateClass { domain: b(TEST_DOMAIN), class: b("c"), mindevcount: 2 };
    let resp = backend.create_class(&req).unwrap();
    assert_eq!(b("c"), resp.class);
    assert_eq!(2, resp.mindevcount);
    assert_eq!(b(TEST_DOMAIN), resp.domain);
}

#[test]
fn create_domain_twice() {
    let mut backend = MemBackend::new(base_url());
    assert!(backend.create_domain(&CreateDomain { domain: b("td") }).is_ok());
    assert!(matches!(backend.create_domain(&CreateDomain { domain: b("td") }), Err(MogError::DomainExists(_))));
    assert!(list(&backend, "td", None, None, None).is_empty());
}

#[test]
fn delete_then_lookup() {
    let mut backend = backend_fixture();
    backend.delete(&Delete { domain: b(TEST_DOMAIN), key: b(TEST_KEY_2) }).unwrap();
    assert!(matches!(backend.get_paths(&GetPaths { domain: b(TEST_DOMAIN), key: b(TEST_KEY_2) }),
                     Err(MogError::UnknownKey(_))));
}

#[test]
fn list_keys_limit_is_capped() {
    let mut backend = MemBackend::new(base_url());
    for i in 0..1005 {
        open(&mut backend, "big", &format!("k{:05}", i));
    }
    assert_eq!(1000, list(&backend, "big", None, None, Some(5000)).len());
    assert_eq!(1000, list(&backend, "big", None, None, None).len());
    assert_eq!(0, list(&backend, "big", None, None, Some(0)).len());
}

#[test]
fn pages_cover_all_keys() {
    let mut backend = MemBackend::new(base_url());
    for i in 1..=100 {
        open(&mut backend, "td2", &format!("p/key/{}", i));
    }
    let mut all: Vec<Vec<u8>> = Vec::new();
    let mut after: Option<Vec<u8>> = None;
    loop {
        let page = list(&backend, "td2", Some("p/"), after.as_deref(), Some(7));
        if page.is_empty() {
            break;
        }
        after = page.last().cloned();
        all.extend(page);
    }
    let mut expected: Vec<Vec<u8>> = (1..=100).map(|i| format!("p/key/{}", i).into_bytes()).collect();
    expected.sort();
    assert_eq!(expected, all);
}

#[test]
fn url_for_key_trims_leading_empty_segments() {
    let base = BaseUrl::new(b("http://h:7500"), vec![b("")]);
    assert_eq!(b("http://h:7500/d/dom/k/a/b"), mogilefs::backend::url_for_key(&base, b"dom", b"a/b"));
}

fn domain_fixture() -> MemDomain {
    let mut domain = MemDomain::new(TEST_DOMAIN.as_bytes());
    let mut file_1 = MemFileInfo::new(3, TEST_KEY_1.as_bytes());
    file_1.content = Some(TEST_CONTENT_1.to_vec());
    file_1.size = Some(TEST_CONTENT_1.len() as u64);
    file_1.mtime = Some(0);
    domain.add_file(TEST_KEY_1.as_bytes(), file_1).unwrap();
    domain.add_file(TEST_KEY_2.as_bytes(), MemFileInfo::new(4, TEST_KEY_2.as_bytes())).unwrap();
    domain
}

#[test]
fn create_domain() {
    let domain = MemDomain::new(b"test_domain_2");
    assert_eq!(b"test_domain_2", domain.name());
    assert!(domain.files().is_empty());
}

#[test]
fn domain_get_file() {
    let mut domain = domain_fixture();

    {
        let file = domain.file(TEST_KEY_1.as_bytes());
        assert!(file.is_some());
        assert_eq!(TEST_KEY_1.as_bytes(), file.unwrap().key());
    }

    {
        let file2 = domain.file(b"test/key/3");
        assert!(file2.is_none());
    }

    {
        let file3 = domain.file_mut(TEST_KEY_1.as_bytes());
        assert!(file3.is_some());
        assert_eq!(TEST_KEY_1.as_bytes(), file3.unwrap().key());
    }

    {
        let file4 = domain.file_mut(b"test/key/3");
        assert!(file4.is_none());
    }
}

#[test]
fn domain_get_mut_file() {
    let mut domain = domain_fixture();
    let new_content: Vec<u8> = b"Different content".to_vec();

    {
        let mut_file = domain.file_mut(TEST_KEY_1.as_bytes()).unwrap();
        mut_file.content = Some(new_content.clone());
    }

    {
        let file = domain.file(TEST_KEY_1.as_bytes()).unwrap();
        assert_eq!(Some(new_content.clone()), file.content);
    }
}

#[test]
fn domain_list_files() {
    let domain = domain_fixture();
    let mut files = domain.files().iter();

    let file_1 = files.next();
    assert_eq!(Some(TEST_KEY_1.as_bytes()), file_1.map(|(k, _)| k.as_slice()));
    assert_eq!(Some(TEST_KEY_1.as_bytes()), file_1.map(|(_, fi)| fi.key()));

    let file_2 = files.next();
    assert_eq!(Some(TEST_KEY_2.as_bytes()), file_2.map(|(k, _)| k.as_slice()));
    assert_eq!(Some(TEST_KEY_2.as_bytes()), file_2.map(|(_, fi)| fi.key()));

    assert!(files.next().is_none());
}

#[test]
fn domain_materialise() {
    let mut domain = domain_fixture();
    domain.materialise(TEST_KEY_2.as_bytes(), b"xyz", 42).unwrap();
    let file = domain.file(TEST_KEY_2.as_bytes()).unwrap();
    assert_eq!(Some(b"xyz".to_vec()), file.content);
    assert_eq!(Some(3), file.size);
    assert_eq!(Some(42), file.mtime);
    assert!(matches!(domain.materialise(b"nope", b"x", 1), Err(MogError::UnknownKey(ref k)) if k == b"nope"));
}

#[test]
fn domain_rename_rewrites_key() {
    let mut domain = domain_fixture();
    domain.rename(TEST_KEY_1.as_bytes(), b"z").unwrap();
    let f = domain.file(b"z").unwrap();
    assert_eq!(b"z", f.key());
    assert_eq!(3, f.fid());
    assert!(domain.file(TEST_KEY_1.as_bytes()).is_none());
}

#[test]
fn domain_add_file() {
    let mut domain = domain_fixture();
    let new_key = "test/key/3";
    let content: Vec<u8> = b"New file content".to_vec();

    let mut file = MemFileInfo::new(5, new_key.as_bytes());
    file.content = Some(content.clone());
    file.size = Some(content.len() as u64);
    domain.add_file(new_key.as_bytes(), file).unwrap();

    let file = domain.file(new_key.as_bytes());
    assert!(file.is_some());
    let file = file.unwrap();
    assert_eq!(5, file.fid());
    assert_eq!(new_key.as_bytes(), file.key());
    assert_eq!(Some(&content), file.content.as_ref());
    assert_eq!(Some(content.len() as u64), file.size);

    let file = MemFileInfo::new(6, TEST_KEY_1.as_bytes());
    let result = domain.add_file(TEST_KEY_1.as_bytes(), file);
    assert!(result.is_ok());
    let file = domain.file(TEST_KEY_1.as_bytes()).unwrap();
    assert_eq!(6, file.fid());
    assert_eq!(TEST_KEY_1.as_bytes(), file.key());
    assert_eq!(None, file.content);
    assert_eq!(None, file.size);
}

#[test]
fn domain_remove_file() {
    let mut domain = domain_fixture();

    let remove_result = domain.remove_file(TEST_KEY_2.as_bytes());
    assert!(remove_result.is_some());
    let removed = remove_result.unwrap();
    assert_eq!(TEST_KEY_2.as_bytes(), removed.key());

    let get_result = domain.file(TEST_KEY_2.as_bytes());
    assert!(get_result.is_none());

    let remove_result_2 = domain.remove_file(TEST_KEY_2.as_bytes());
    assert!(remove_result_2.is_none());
}

#[test]
fn empty_domain_or_key_is_refused() {
    let mut backend = MemBackend::new(base_url());
    assert!(matches!(backend.create_domain(&CreateDomain { domain: b("") }), Err(MogError::NoDomain)));
    assert!(backend.domain(b"").is_none());
    let r = backend.create_open(&CreateOpen { domain: b(""), class: None, key: b("k"), multi_dest: true, size: None });
    assert!(matches!(r, Err(MogError::NoDomain)));
    let r = backend.create_open(&CreateOpen { domain: b("d"), class: None, key: b(""), multi_dest: true, size: None });
    assert!(matches!(r, Err(MogError::NoKey)));
    assert!(backend.domain(b"d").is_none());
    let first = backend.create_open(&CreateOpen { domain: b("d"), class: None, key: b("k"), multi_dest: true, size: None }).unwrap();
    assert_eq!(1, first.fid);
}

#[test]
fn file_info_names_requested_key() {
    let mut backend = backend_fixture();
    {
        let f = backend.file_mut(TEST_DOMAIN.as_bytes(), TEST_KEY_1.as_bytes()).unwrap().unwrap();
        *f = MemFileInfo::new(9, b"elsewhere");
        f.size = Some(1);
        f.mtime = Some(0);
    }
    let info = backend.file_info(&FileInfo { domain: b(TEST_DOMAIN), key: b(TEST_KEY_1) }).unwrap();
    assert_eq!(b(TEST_KEY_1), info.key);
    assert_eq!(9, info.fid);
}

#[test]
fn url_for_key_encodes_path() {
    let backend = backend_fixture();
    assert_eq!(
        format!("http://{}/{}/d/{}/k/a%20b%3Fc", TEST_HOST, TEST_BASE_PATH, TEST_DOMAIN).into_bytes(),
        backend.url_for_key(TEST_DOMAIN.as_bytes(), b"a b?c"));
}
