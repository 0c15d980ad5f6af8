use decachedmem::memcached::store::Store;
use decachedmem::memcached::types::{Command, Key, Request};
use decachedmem::service::MemcachedService;

#[test]
fn service_set_then_get() {
    let mut service = MemcachedService::new(Store::new());
    let missing = service.call(Request::new(Command::Get, Key(b"foo".to_vec())));
    assert_eq!(missing.serialize(), b"END".to_vec());
    let mut set = Request::new(Command::SetValue, Key(b"foo".to_vec()));
    set.set_body(b"hello world".to_vec());
    assert_eq!(service.call(set).serialize(), b"STORED".to_vec());
    let found = service.call(Request::new(Command::Get, Key(b"foo".to_vec())));
    assert_eq!(found.serialize(), b"VALUE foo 3 11".to_vec());
}

#[test]
fn service_uses_the_store_it_was_given() {
    let mut store = Store::new();
    store.set(Key(b"k".to_vec()), b"xyz".to_vec());
    let mut service = MemcachedService::new(store);
    let found = service.call(Request::new(Command::Get, Key(b"k".to_vec())));
    assert_eq!(found.serialize(), b"VALUE k 3 3".to_vec());
}
