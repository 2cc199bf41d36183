use golf_score_tracker::movie::Movie;
use golf_score_tracker::queue::MovieQueue;

fn get_movie_fixture() -> Movie {
    Movie::new(
        "Happy Gilmore".to_string(),
        "Dennis Dugan".to_string(),
        1996,
        "Adam Sandler".to_string(),
    )
}

#[test]
fn new_queue_is_empty() {
    let queue: MovieQueue<Movie> = MovieQueue::new();
    assert!(queue.is_empty());
    assert_eq!(queue.len(), 0);
}

#[test]
fn queue_fifo_behavior() {
    let mut queue = MovieQueue::new();

    // Enqueue 3 movies
    queue.enqueue(get_movie_fixture());

    let movie2 = Movie::new(
        "Tommy Boy".to_string(),
        "Peter Segal".to_string(),
        1995,
        "Chris Farley".to_string(),
    );
    queue.enqueue(movie2);

    let movie3 = Movie::new(
        "Elf".to_string(),
        "Jon Favreau".to_string(),
        2003,
        "Will Ferrell".to_string(),
    );
    queue.enqueue(movie3);

    assert_eq!(queue.len(), 3);
    assert!(!queue.is_empty());

    // Dequeue should return in FIFO order (First In, First Out)
    let first = queue.dequeue().unwrap();
    assert_eq!(first.title, "Happy Gilmore");

    let second = queue.dequeue().unwrap();
    assert_eq!(second.title, "Tommy Boy");

    assert_eq!(queue.len(), 1);

    let third = queue.dequeue().unwrap();
    assert_eq!(third.title, "Elf");

    assert!(queue.is_empty());
    assert_eq!(queue.dequeue(), None);  // Empty queue returns None
}

#[test]
fn peek_doesnt_remove() {
    let mut queue = MovieQueue::new();
    queue.enqueue(get_movie_fixture());

    // Peek multiple times - shouldn't remove the item
    let peeked1 = queue.peek().unwrap();
    assert_eq!(peeked1.title, "Happy Gilmore");

    let peeked2 = queue.peek().unwrap();
    assert_eq!(peeked2.title, "Happy Gilmore");

    // Still has 1 item
    assert_eq!(queue.len(), 1);
}

#[test]
fn iter_borrows_doesnt_consume() {
    let mut queue = MovieQueue::new();
    queue.enqueue(get_movie_fixture());

    let movie2 = Movie::new(
        "Tommy Boy".to_string(),
        "Peter Segal".to_string(),
        1995,
        "Chris Farley".to_string(),
    );
    queue.enqueue(movie2);

    // Iterate with iter() - borrows the queue
    let mut count = 0;
    for movie in queue.iter() {
        println!("Title: {}", movie.title);
        count += 1;
    }
    assert_eq!(count, 2);

    // Queue still usable! This proves we borrowed, not consumed!
    assert_eq!(queue.len(), 2);
    assert!(!queue.is_empty());

    // Can iterate AGAIN!
    let titles: Vec<_> = queue.iter().into_iter().map(|m| &m.title).collect();
    assert_eq!(titles.len(), 2);
    assert_eq!(titles[0], "Happy Gilmore");
    assert_eq!(titles[1], "Tommy Boy");
}
