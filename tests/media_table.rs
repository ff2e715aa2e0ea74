use dim_auth::error::{DimError, HeadersLoginError};
use dim_auth::media::{InsertableMedia, Media, MediaKind, MediaTable, MediaType, StaticKind, StreamableKind, UpdateMedia};
use dim_auth::profile::{avatar_file_ext, whoami};
use dim_auth::retry::{after_attempt, DatabaseError, RetryStep, TxOutcome};
use dim_auth::role::Role;
use dim_auth::token::Claims;

fn movie(name: &str, library_id: i32) -> InsertableMedia {
    InsertableMedia {
        library_id,
        name: name.to_string(),
        description: Some("desc".to_string()),
        rating: Some(7),
        year: Some(1999),
        added: "2021-01-01".to_string(),
        poster_path: None,
        backdrop_path: None,
        media_type: MediaType::Movie,
    }
}

#[test]
fn insert_or_get_converges_on_one_row() {
    let mut t = MediaTable::new(vec![1]);
    let m = movie("Heat", 1);
    let ids: Vec<i32> = (0..5).map(|_| m.insert(&mut t).unwrap()).collect();
    assert!(ids.iter().all(|&i| i == ids[0]));
    assert_eq!(t.rows.iter().filter(|r| r.name == "Heat").count(), 1);
}

#[test]
fn insert_needs_library() {
    let mut t = MediaTable::new(vec![1]);
    assert_eq!(movie("Heat", 2).insert(&mut t), Err(DatabaseError::NotFound));
    assert_eq!(movie("Heat", 2).insert_blind(&mut t), Err(DatabaseError::NotFound));
    assert!(t.rows.is_empty());
}

#[test]
fn insert_blind_always_adds() {
    let mut t = MediaTable::new(vec![1]);
    let a = movie("Ep", 1).insert_blind(&mut t).unwrap();
    let b = movie("Ep", 1).insert_blind(&mut t).unwrap();
    assert_ne!(a, b);
    assert_eq!(t.rows.len(), 2);
    assert_eq!(t.rows[1].added, Some("2021-01-01".to_string()));
}

#[test]
fn insert_reports_id_overflow() {
    let mut t = MediaTable::new(vec![1]);
    t.next_id = i32::MAX;
    assert_eq!(movie("X", 1).insert(&mut t), Err(DatabaseError::IdOverflow));
}

#[test]
fn get_and_delete() {
    let mut t = MediaTable::new(vec![1, 2]);
    let a = movie("A", 1).insert(&mut t).unwrap();
    let b = movie("B", 2).insert(&mut t).unwrap();
    assert_eq!(Media::get(&t, a).unwrap().name, "A");
    assert_eq!(Media::get(&t, 99).err(), Some(DatabaseError::NotFound));
    assert_eq!(Media::get_by_name_and_lib_id(&t, 2, "B").unwrap().id, b);
    assert!(Media::get_by_name_and_lib_id(&t, 1, "B").is_err());
    assert_eq!(Media::delete(&mut t, a), Ok(1));
    assert_eq!(Media::delete(&mut t, a), Ok(0));
    assert!(Media::get(&t, a).is_err());
}

#[test]
fn get_all_skips_episodes_and_other_libraries() {
    let mut t = MediaTable::new(vec![1, 2]);
    movie("A", 1).insert(&mut t).unwrap();
    let mut ep = movie("E", 1);
    ep.media_type = MediaType::Episode;
    ep.insert(&mut t).unwrap();
    movie("C", 2).insert(&mut t).unwrap();
    let all = Media::get_all(&t, 1);
    assert_eq!(all.len(), 1);
    assert_eq!(all[0].name, "A");
}

#[test]
fn delete_by_library() {
    let mut t = MediaTable::new(vec![1, 2]);
    movie("A", 1).insert(&mut t).unwrap();
    movie("B", 1).insert(&mut t).unwrap();
    movie("C", 2).insert(&mut t).unwrap();
    assert_eq!(Media::delete_by_lib_id(&mut t, 1), Ok(2));
    assert_eq!(t.rows.len(), 1);
    assert_eq!(t.rows[0].name, "C");
}

#[test]
fn update_replaces_given_fields() {
    let mut t = MediaTable::new(vec![1]);
    let a = movie("A", 1).insert(&mut t).unwrap();
    let u = UpdateMedia {
        name: Some("New".to_string()),
        description: None,
        rating: None,
        year: Some(2000),
        added: None,
        poster_path: Some("/p.jpg".to_string()),
        backdrop_path: None,
        media_type: None,
    };
    assert_eq!(u.update(&mut t, a), Ok(1));
    assert_eq!(u.update(&mut t, 77), Ok(0));
    let m = Media::get(&t, a).unwrap();
    assert_eq!(m.name, "New");
    assert_eq!(m.year, Some(2000));
    assert_eq!(m.rating, Some(7));
    assert_eq!(m.description, Some("desc".to_string()));
    assert_eq!(m.poster_path, Some("/p.jpg".to_string()));
}

#[test]
fn media_equality_is_by_id() {
    let mut t = MediaTable::new(vec![1]);
    let a = movie("A", 1).insert(&mut t).unwrap();
    let x = Media::get(&t, a).unwrap();
    let mut y = Media::get(&t, a).unwrap();
    y.name = "other".to_string();
    assert!(x == y);
}

#[test]
fn kind_records() {
    let mut t = MediaTable::new(vec![1]);
    let m = movie("A", 1);
    let a = m.insert(&mut t).unwrap();
    assert_eq!(m.into_streamable(&mut t, a, StreamableKind::Movie, None), Ok(a));
    assert_eq!(t.markers, vec![(a, MediaKind::Streamable), (a, MediaKind::Movie)]);
    assert_eq!(m.into_streamable(&mut t, a, StreamableKind::Episode, Some(())), Ok(a));
    assert_eq!(t.markers.len(), 3);
    assert_eq!(m.into_static(&mut t, a, StaticKind::TvShow), Ok(a));
    assert_eq!(t.markers[3], (a, MediaKind::TvShow));
    assert_eq!(m.into_static(&mut t, 55, StaticKind::TvShow), Err(DatabaseError::NotFound));
}

#[test]
fn retry_decisions() {
    assert!(matches!(after_attempt(1, 3, TxOutcome::Committed(7)), RetryStep::Finish(Ok(7))));
    assert!(matches!(after_attempt::<i32>(1, 3, TxOutcome::Conflict), RetryStep::Retry));
    assert!(matches!(
        after_attempt::<i32>(3, 3, TxOutcome::Conflict),
        RetryStep::Finish(Err(DatabaseError::WriteConflict))
    ));
    assert!(matches!(
        after_attempt::<i32>(1, 3, TxOutcome::Failed(DatabaseError::Storage)),
        RetryStep::Finish(Err(DatabaseError::Storage))
    ));
}

#[test]
fn avatar_extensions() {
    assert_eq!(avatar_file_ext("file", Some("image/jpeg")), Ok("jpg".to_string()));
    assert_eq!(avatar_file_ext("file", Some("image/jpg")), Ok("jpg".to_string()));
    assert_eq!(avatar_file_ext("file", Some("image/png")), Ok("png".to_string()));
    assert_eq!(avatar_file_ext("file", Some("image/gif")), Err(DimError::UnsupportedFile));
    assert_eq!(avatar_file_ext("file", None), Err(DimError::UnsupportedFile));
    assert_eq!(avatar_file_ext("other", Some("image/png")), Err(DimError::UploadFailed));
}

#[test]
fn profile_summary() {
    let c = Claims { username: "alice".to_string(), roles: vec![Role::Owner], exp: 9 };
    let p = whoami(&c, Some("a.png".to_string()), Some(7250));
    assert_eq!(p.spent_watching, 2);
    assert_eq!(p.picture, Some("a.png".to_string()));
    assert_eq!(p.username, "alice");
    let q = whoami(&c, None, None);
    assert_eq!(q.spent_watching, 0);
    assert_eq!(q.picture, None);
    assert_eq!(c.clone_roles(), vec![Role::Owner]);
}

#[test]
fn headers_login_error_from() {
    assert_eq!(HeadersLoginError::from(DimError::NoToken), HeadersLoginError::DimError(DimError::NoToken));
}
