use golf_score_tracker::movie::{Movie, MovieCollection};
use golf_score_tracker::rating::{Rated, Rating, RatingScale};
use golf_score_tracker::watchlist::Watchlist;

fn get_movie_fixture() -> Movie {
    Movie::new(
        "Billy Madison".to_string(),
        "Tamra Davis".to_string(),
        1995,
        "Adam Sandler".to_string(),
    )
}

fn get_movie_fixture_01() -> Movie {
    get_movie_fixture()
}

fn get_movie_fixture_02() -> Movie {
    Movie::new(
        "Tommy Boy".to_string(),
        "Peter Segal".to_string(),
        1995,
        "Chris Farley".to_string(),
    )
}

fn get_movie_fixture_03() -> Movie {
    Movie::new(
        "Black Sheep".to_string(),
        "Penelope Spheeris".to_string(),
        1996,
        "Chris Farley".to_string(),
    )
}

fn get_movie_fixture_04() -> Movie {
    Movie::new(
        "Joe Dirt".to_string(),
        "Dennie Gordon".to_string(),
        2001,
        "David Spade".to_string(),
    )
}

#[test]
fn new_movie() {
    let result = get_movie_fixture();

    assert_eq!(result.title, "Billy Madison");
    assert_eq!(result.director, "Tamra Davis");
    assert_eq!(result.year, 1995);
    assert_eq!(result.lead_actor, "Adam Sandler");
}

#[test]
fn display_movie() {
    let movie = get_movie_fixture();
    let result = movie.display_string();
    const EXPECTED: &str = "🎬 Billy Madison (1995), directed by Tamra Davis, starring Adam Sandler 🎬";
    assert_eq!(result, EXPECTED);
}

#[test]
fn generic_collection_with_movies() {
    let mut collection = MovieCollection::new();
    collection.add(get_movie_fixture());

    assert_eq!(collection.len(), 1);
    assert!(!collection.is_empty());
}

#[test]
fn generic_collection_with_strings() {
    let mut collection: MovieCollection<String> = MovieCollection::new();
    collection.add("Happy Gilmore".to_string());
    collection.add("Tommy Boy".to_string());

    assert_eq!(collection.len(), 2);
}

#[test]
fn generic_collection_with_numbers() {
    let mut collection: MovieCollection<u16> = MovieCollection::new();
    collection.add(1995);
    collection.add(1996);
    collection.add(2003);

    assert_eq!(collection.len(), 3);
}

#[test]
fn rating_with_stars() {
    let result = Rating::new(4, RatingScale::Stars);
    assert_eq!(result.value(), 4);
}

#[test]
fn rating_with_numeric() {
    let rating = Rating::new(7, RatingScale::Numeric);
    assert_eq!(rating.value(), 7);
}

#[test]
fn rating_comparison() {
    let high = Rating::new(5, RatingScale::Stars);
    let low = Rating::new(3, RatingScale::Stars);
    assert!(high.is_higher_than(&low));
}

#[test]
fn rated_with_string_and_u8() {
    let rating = Rating::new(6, RatingScale::Stars);
    let rated = Rated::new("Happy Gilmore".to_string(), rating);
    assert_eq!(rated.rating.value(), 6);
}

#[test]
fn new_watchlist() {
    let result: Watchlist<Movie> = Watchlist::new("Mick's List".to_string());

    assert_eq!(result.len(), 0);
    assert_eq!(result.name(), "Mick's List");
}

#[test]
fn find_by_with_closure() {
    let mut watchlist = Watchlist::new("Find by with Closures".to_string());
    watchlist.add(get_movie_fixture_01());
    watchlist.add(get_movie_fixture_02());

    let result = watchlist.find_by(|m| m.title == "Tommy Boy");
    assert!(result.is_some());
    assert_eq!(result.unwrap().lead_actor, "Chris Farley");

    assert!(watchlist.find_by(|x| x.director == "MickLetofsky").is_none());
}

#[test]
fn filter_by_year() {
    let mut watchlist = Watchlist::new("Filter by Year".to_string());
    watchlist.add(get_movie_fixture_01());
    watchlist.add(get_movie_fixture_02());
    watchlist.add(get_movie_fixture_03());

    let result = watchlist.filter_by(|x| x.year == 1996);
    assert_eq!(result.len(), 1);
    assert_eq!(result[0].title, "Black Sheep");
}

#[test]
fn filter_by_actor() {
    let mut watchlist = Watchlist::new("Filter by Actor".to_string());
    watchlist.add(get_movie_fixture_01());
    watchlist.add(get_movie_fixture_02());
    watchlist.add(get_movie_fixture_03());

    let result = watchlist.filter_by(|m| m.lead_actor == "Chris Farley");
    assert_eq!(result.len(), 2);
}

#[test]
fn rated_watchlist_operations() {
    let mut watchlist = Watchlist::new("Rated watchlist".to_string());
    let rating = Rating::new(5, RatingScale::Stars);
    watchlist.add(Rated::new(get_movie_fixture_01(), rating));

    let rating = Rating::new(4, RatingScale::Stars);
    watchlist.add(Rated::new(get_movie_fixture_02(), rating));

    let rating = Rating::new(3, RatingScale::Stars);
    watchlist.add(Rated::new(get_movie_fixture_04(), rating));

    let high_ratings = watchlist.rated_above(3);
    let best = watchlist.highest_rated();

    assert_eq!(high_ratings.len(), 2);
    assert_eq!(best.unwrap().item.title, "Billy Madison");
}

#[test]
fn sorted_and_top_n_order_by_value() {
    let mut watchlist: Watchlist<u16> = Watchlist::new("Years".to_string());
    watchlist.add(2001);
    watchlist.add(1995);
    watchlist.add(1996);

    assert_eq!(watchlist.sorted(), vec![1995, 1996, 2001]);
    assert_eq!(watchlist.top_n(2), vec![2001, 1996]);
    assert_eq!(watchlist.get_all(), vec![2001, 1995, 1996]);
}
