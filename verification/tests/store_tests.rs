use birthbot::birthday::Birthday;
use birthbot::model::MemberRecord;
use birthbot::store::{GuildConfigStore, MemberStore};

fn bd(year: i32, month: u8, day: u8) -> Birthday {
    Birthday {
        year,
        month,
        day,
        hour: 0,
        minute: 0,
        second: 0,
        offset_minutes: 0,
    }
}

fn rec(user_id: u64, guild_id: u64, b: Birthday) -> MemberRecord {
    MemberRecord {
        user_id,
        guild_id,
        birthday: b,
    }
}

#[test]
fn find_on_empty_store() {
    let store = MemberStore::new();
    assert_eq!(store.find(1, 1), None);
}

#[test]
fn upsert_then_find() {
    let mut store = MemberStore::new();
    store.upsert(rec(1, 10, bd(2000, 1, 1)));
    assert_eq!(store.find(1, 10), Some(bd(2000, 1, 1)));
    assert_eq!(store.find(1, 11), None);
    assert_eq!(store.find(2, 10), None);
}

#[test]
fn upsert_replaces_wholesale() {
    let mut store = MemberStore::new();
    store.upsert(rec(1, 10, bd(2000, 1, 1)));
    store.upsert(rec(1, 10, bd(1999, 12, 31)));
    assert_eq!(store.find(1, 10), Some(bd(1999, 12, 31)));
    assert_eq!(store.find_all(None).len(), 1);
}

#[test]
fn per_guild_birthdays_are_independent() {
    let mut store = MemberStore::new();
    store.upsert(rec(1, 10, bd(2000, 1, 1)));
    store.upsert(rec(1, 20, bd(1990, 6, 15)));
    assert_eq!(store.find(1, 10), Some(bd(2000, 1, 1)));
    assert_eq!(store.find(1, 20), Some(bd(1990, 6, 15)));
}

#[test]
fn delete_reports_existence() {
    let mut store = MemberStore::new();
    store.upsert(rec(1, 10, bd(2000, 1, 1)));
    assert!(store.delete(1, 10));
    assert_eq!(store.find(1, 10), None);
    assert!(!store.delete(1, 10));
}

#[test]
fn find_all_filters_by_guild() {
    let mut store = MemberStore::new();
    store.upsert(rec(1, 10, bd(2000, 1, 1)));
    store.upsert(rec(2, 10, bd(2001, 2, 2)));
    store.upsert(rec(3, 20, bd(2002, 3, 3)));
    let all = store.find_all(None);
    assert_eq!(all.len(), 3);
    let guild10 = store.find_all(Some(10));
    assert_eq!(guild10.len(), 2);
    assert!(guild10.iter().all(|r| r.guild_id == 10));
    let guild30 = store.find_all(Some(30));
    assert!(guild30.is_empty());
}

#[test]
fn channel_config_lifecycle() {
    let mut cfg = GuildConfigStore::new();
    assert_eq!(cfg.channel_for(10), None);
    cfg.set_channel(10, 777);
    assert_eq!(cfg.channel_for(10), Some(777));
    assert_eq!(cfg.channel_for(20), None);
    cfg.set_channel(10, 888);
    assert_eq!(cfg.channel_for(10), Some(888));
    assert!(cfg.unset_channel(10));
    assert_eq!(cfg.channel_for(10), None);
    assert!(!cfg.unset_channel(10));
}
