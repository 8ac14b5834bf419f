//! Follow and favorite edges, and viewer-relative personalization.

use conduit_auth::error::AppError;
use conduit_auth::error::ValidationIssue;
use conduit_auth::favorite::CreateFavorite;
use conduit_auth::favorite::Favorite;
use conduit_auth::favorite::DeleteFavorite;
use conduit_auth::favorite::FavoriteRepositoryImpl;
use conduit_auth::favorite::FavoriteStore;
use conduit_auth::follow::CreateFollow;
use conduit_auth::follow::DeleteFollow;
use conduit_auth::follow::FollowStore;
use conduit_auth::personalize::personalize;
use conduit_auth::personalize::ArticleTarget;
use conduit_auth::tag::Tag;
use conduit_auth::tag::TagPresenterImpl;
use conduit_auth::tag::TagRepositoryImpl;
use conduit_auth::user::AccountStore;
use conduit_auth::user::SignupUser;
use conduit_auth::user::User;

const NOW: u64 = 1_700_000_000;

#[test]
fn anonymous_viewer_is_never_following() {
    let mut follows = FollowStore::new();
    follows.create(&CreateFollow { follower_id: 1, followee_id: 2 }, NOW).unwrap();
    assert!(!follows.is_following(None, 2));
    assert!(follows.is_following(Some(1), 2));
    assert!(!follows.is_following(Some(2), 1));
}

#[test]
fn self_follow_reflects_the_edge_table() {
    let mut follows = FollowStore::new();
    // no self-follow edge: the flag is false
    assert!(!follows.is_following(Some(7), 7));
    // a self-follow edge is not special-cased: once present it is reported
    follows.create(&CreateFollow { follower_id: 7, followee_id: 7 }, NOW).unwrap();
    assert!(follows.is_following(Some(7), 7));
}

#[test]
fn follow_then_unfollow_round_trips() {
    let mut follows = FollowStore::new();
    follows.create(&CreateFollow { follower_id: 1, followee_id: 2 }, NOW).unwrap();
    assert!(follows.is_following(Some(1), 2));
    let removed = follows.delete(&DeleteFollow { follower_id: 1, followee_id: 2 });
    assert_eq!(removed, 1);
    assert!(!follows.is_following(Some(1), 2));
    // removing again removes nothing
    let removed = follows.delete(&DeleteFollow { follower_id: 1, followee_id: 2 });
    assert_eq!(removed, 0);
}

#[test]
fn duplicate_follow_is_refused() {
    let mut follows = FollowStore::new();
    follows.create(&CreateFollow { follower_id: 1, followee_id: 2 }, NOW).unwrap();
    let err = follows.create(&CreateFollow { follower_id: 1, followee_id: 2 }, NOW).unwrap_err();
    assert_eq!(err, AppError::UnprocessableEntity(ValidationIssue::DuplicateEdge));
}

#[test]
fn duplicate_favorite_makes_no_second_edge() {
    let mut favorites = FavoriteStore::new();
    assert_eq!(favorites.create(&CreateFavorite { user_id: 1, article_id: 10 }, NOW), Ok(1));
    assert_eq!(favorites.favorites_count(10), 1);
    let err = favorites.create(&CreateFavorite { user_id: 1, article_id: 10 }, NOW).unwrap_err();
    assert_eq!(err, AppError::UnprocessableEntity(ValidationIssue::DuplicateEdge));
    // still exactly one edge
    assert_eq!(favorites.favorites_count(10), 1);
    // a subsequent unfavorite removes exactly one
    let removed = favorites.delete(&DeleteFavorite { user_id: 1, article_id: 10 });
    assert_eq!(removed, 1);
    assert_eq!(favorites.favorites_count(10), 0);
}

#[test]
fn favorites_count_is_viewer_independent() {
    let mut favorites = FavoriteStore::new();
    favorites.create(&CreateFavorite { user_id: 1, article_id: 10 }, NOW).unwrap();
    favorites.create(&CreateFavorite { user_id: 2, article_id: 10 }, NOW).unwrap();
    favorites.create(&CreateFavorite { user_id: 1, article_id: 11 }, NOW).unwrap();
    assert_eq!(favorites.favorites_count(10), 2);
    assert_eq!(favorites.favorites_count(11), 1);
    assert_eq!(favorites.favorites_count(12), 0);
    assert!(favorites.is_favorited(Some(1), 10));
    assert!(!favorites.is_favorited(Some(3), 10));
    assert!(!favorites.is_favorited(None, 10));
    assert_eq!(favorites.favorited_article_ids(1), vec![10, 11]);
    assert_eq!(favorites.favorited_article_ids(3), Vec::<u128>::new());
}

#[test]
fn favorite_repository_delegates_to_the_edge_table() {
    let mut repo = FavoriteRepositoryImpl::new(FavoriteStore::new());
    assert_eq!(repo.favorite_article(1, 10, NOW), Ok(1));
    let err = repo.favorite_article(1, 10, NOW).unwrap_err();
    assert_eq!(err, AppError::UnprocessableEntity(ValidationIssue::DuplicateEdge));
    assert_eq!(repo.unfavorite_article(1, 10), 1);
    assert_eq!(repo.unfavorite_article(1, 10), 0);
}

#[test]
fn personalization_differs_only_by_viewer() {
    let mut follows = FollowStore::new();
    let mut favorites = FavoriteStore::new();
    // viewer 1 follows author 100 and favorited article 10
    follows.create(&CreateFollow { follower_id: 1, followee_id: 100 }, NOW).unwrap();
    favorites.create(&CreateFavorite { user_id: 1, article_id: 10 }, NOW).unwrap();
    favorites.create(&CreateFavorite { user_id: 2, article_id: 10 }, NOW).unwrap();
    favorites.create(&CreateFavorite { user_id: 2, article_id: 11 }, NOW).unwrap();
    let targets = vec![
        ArticleTarget { article_id: 10, author_id: 100 },
        ArticleTarget { article_id: 11, author_id: 200 },
    ];
    let anonymous = personalize(None, &targets, &follows, &favorites);
    assert_eq!(anonymous.len(), 2);
    assert!(!anonymous[0].following);
    assert!(!anonymous[0].favorite_info.is_favorited);
    assert_eq!(anonymous[0].favorite_info.favorites_count, 2);
    assert!(!anonymous[1].following);
    assert!(!anonymous[1].favorite_info.is_favorited);
    assert_eq!(anonymous[1].favorite_info.favorites_count, 1);
    let as_viewer_1 = personalize(Some(1), &targets, &follows, &favorites);
    assert!(as_viewer_1[0].following);
    assert!(as_viewer_1[0].favorite_info.is_favorited);
    assert!(!as_viewer_1[1].following);
    assert!(!as_viewer_1[1].favorite_info.is_favorited);
    // counts are the same for every viewer
    assert_eq!(as_viewer_1[0].favorite_info.favorites_count, 2);
    assert_eq!(as_viewer_1[1].favorite_info.favorites_count, 1);
}

#[test]
fn follow_user_by_username_echoes_the_follower() {
    let mut store = AccountStore::new();
    let alice = store
        .insert(
            SignupUser {
                email: "alice@example.com".to_string(),
                username: "alice".to_string(),
                password: "x".to_string(),
            },
            NOW,
        )
        .unwrap();
    let bob = store
        .insert(
            SignupUser {
                email: "bob@example.com".to_string(),
                username: "bob".to_string(),
                password: "x".to_string(),
            },
            NOW,
        )
        .unwrap();
    let mut follows = FollowStore::new();
    let profile = User::follow_user(&store, &mut follows, &alice, "bob", NOW).unwrap();
    assert!(profile.following);
    assert_eq!(profile.username, "alice");
    assert!(alice.is_following(&follows, bob.id));
    // unknown usernames are NotFound; duplicates are refused
    assert_eq!(
        User::follow_user(&store, &mut follows, &alice, "carol", NOW).unwrap_err(),
        AppError::NotFound
    );
    assert_eq!(
        User::follow_user(&store, &mut follows, &alice, "bob", NOW).unwrap_err(),
        AppError::UnprocessableEntity(ValidationIssue::DuplicateEdge)
    );
    let profile = User::unfollow_user(&store, &mut follows, &alice, "bob").unwrap();
    assert!(!profile.following);
    assert!(!alice.is_following(&follows, bob.id));
}

#[test]
fn unfollow_leaves_every_other_edge_alone() {
    let mut follows = FollowStore::new();
    follows.create(&CreateFollow { follower_id: 1, followee_id: 2 }, NOW).unwrap();
    follows.create(&CreateFollow { follower_id: 1, followee_id: 3 }, NOW).unwrap();
    follows.create(&CreateFollow { follower_id: 2, followee_id: 1 }, NOW).unwrap();
    let removed = follows.delete(&DeleteFollow { follower_id: 1, followee_id: 2 });
    assert_eq!(removed, 1);
    assert!(!follows.is_following(Some(1), 2));
    // exactly that one edge is gone; nobody else's follow state moved
    assert!(follows.is_following(Some(1), 3));
    assert!(follows.is_following(Some(2), 1));
    // an unfollow of a pair with no edge moves nothing at all
    let removed = follows.delete(&DeleteFollow { follower_id: 3, followee_id: 1 });
    assert_eq!(removed, 0);
    assert!(follows.is_following(Some(1), 3));
    assert!(follows.is_following(Some(2), 1));
}

#[test]
fn tags_list_as_their_texts() {
    let repo = TagRepositoryImpl::new(vec![
        Tag { id: 1, article_id: 10, name: "rust".to_string(), created_at: NOW, updated_at: NOW },
        Tag { id: 2, article_id: 10, name: "verus".to_string(), created_at: NOW, updated_at: NOW },
    ]);
    let tags = repo.fetch_tags();
    assert_eq!(tags.len(), 2);
    let response = TagPresenterImpl::new().to_response(tags);
    assert_eq!(response.tags, vec!["rust".to_string(), "verus".to_string()]);
}

#[test]
fn favorited_ids_by_username_joins_through_accounts() {
    let mut accounts = AccountStore::new();
    let alice = accounts
        .insert(
            SignupUser {
                email: "alice@example.com".to_string(),
                username: "alice".to_string(),
                password: "x".to_string(),
            },
            NOW,
        )
        .unwrap();
    let mut favorites = FavoriteStore::new();
    favorites.create(&CreateFavorite { user_id: alice.id, article_id: 10 }, NOW).unwrap();
    favorites.create(&CreateFavorite { user_id: alice.id + 1, article_id: 11 }, NOW).unwrap();
    assert_eq!(
        Favorite::fetch_favorited_artcile_ids_by_username(&favorites, &accounts, "alice"),
        vec![10]
    );
    assert_eq!(
        Favorite::fetch_favorited_artcile_ids_by_username(&favorites, &accounts, "nobody"),
        Vec::<u128>::new()
    );
    assert_eq!(alice.fetch_favorited_article_ids(&favorites), vec![10]);
}
