use crate::post::{post_views, BlogPost, BlogPostView};
use vstd::prelude::*;

verus! {

/// The number by which posts are ordered: larger for the later of two dated
/// posts, and smallest for a post without a date.
pub open spec fn rank(post: BlogPostView) -> int {
    match post.metadata.parsed_date {
        Some(date) => date.instant() + 1,
        None => 0,
    }
}

/// `order` and `places` arrange the positions `0..n` anew: `order[i]` is the
/// old position of what stands at the new position `i`, and `places[j]` the
/// new position of what stood at the old position `j`.
pub open spec fn is_arrangement(order: Seq<int>, places: Seq<int>) -> bool {
    &&& order.len() == places.len()
    &&& forall|i: int|
        0 <= i < order.len() ==> 0 <= #[trigger] order[i] < order.len() && places[order[i]] == i
    &&& forall|j: int|
        0 <= j < places.len() ==> 0 <= #[trigger] places[j] < places.len() && order[places[j]]
            == j
}

/// `output` holds the posts of `input` in the order that `order` gives.
pub open spec fn arranged(input: Seq<BlogPostView>, output: Seq<BlogPostView>, order: Seq<int>)
    -> bool {
    &&& output.len() == input.len()
    &&& order.len() == input.len()
    &&& forall|i: int|
        0 <= i < output.len() ==> 0 <= order[i] < input.len() && #[trigger] output[i]
            == input[order[i]]
}

/// No post stands before one of a higher rank, and posts of the same rank
/// stand in the order in which `order` says they came.
pub open spec fn newest_first(output: Seq<BlogPostView>, order: Seq<int>) -> bool {
    forall|i: int, j: int|
        0 <= i < j < output.len() ==> rank(#[trigger] output[i]) >= rank(#[trigger] output[j])
            && (rank(output[i]) == rank(output[j]) ==> order[i] < order[j])
}

/// `output` is `input` sorted by date, the newest post first and the posts
/// without a date last, with posts of the same date, and those without one,
/// left in the order of `input`.
pub open spec fn is_sorted_feed(input: Seq<BlogPostView>, output: Seq<BlogPostView>) -> bool {
    exists|order: Seq<int>, places: Seq<int>|
        is_arrangement(order, places) && arranged(input, output, order) && newest_first(
            output,
            order,
        )
}

/// The two orders agree on the first `n` positions.
proof fn lemma_same_order(
    input: Seq<BlogPostView>,
    a: Seq<BlogPostView>,
    order_a: Seq<int>,
    places_a: Seq<int>,
    b: Seq<BlogPostView>,
    order_b: Seq<int>,
    places_b: Seq<int>,
    n: int,
)
    requires
        is_arrangement(order_a, places_a),
        arranged(input, a, order_a),
        newest_first(a, order_a),
        is_arrangement(order_b, places_b),
        arranged(input, b, order_b),
        newest_first(b, order_b),
        0 <= n <= input.len(),
    ensures
        forall|k: int| 0 <= k < n ==> order_a[k] == order_b[k],
    decreases n,
{
    if n > 0 {
        lemma_same_order(input, a, order_a, places_a, b, order_b, places_b, n - 1);
        let i = n - 1;
        let x = order_a[i];
        let y = order_b[i];
        if x != y {
            // Where x stands in b, and where y stands in a.
            let j = places_b[x];
            let l = places_a[y];
            assert(order_b[j] == x && order_a[l] == y);
            if j < i {
                assert(order_a[j] == order_b[j]);
                assert(places_a[order_a[j]] == j && places_a[order_a[i]] == i);
            }
            if l < i {
                assert(order_a[l] == order_b[l]);
                assert(places_b[order_b[l]] == l && places_b[order_b[i]] == i);
            }
            assert(i < j && i < l);
            assert(b[i] == input[y] && b[j] == input[x]);
            assert(a[i] == input[x] && a[l] == input[y]);
            assert(rank(b[i]) >= rank(b[j]));
            assert(rank(a[i]) >= rank(a[l]));
        }
    }
}

/// A list of posts has one sorted feed only: what `is_sorted_feed` says of
/// the result of sorting fixes every position of it.
pub proof fn lemma_sorted_feed_unique(
    input: Seq<BlogPostView>,
    a: Seq<BlogPostView>,
    b: Seq<BlogPostView>,
)
    requires
        is_sorted_feed(input, a),
        is_sorted_feed(input, b),
    ensures
        a == b,
{
    let (order_a, places_a) = choose|order: Seq<int>, places: Seq<int>|
        is_arrangement(order, places) && arranged(input, a, order) && newest_first(a, order);
    let (order_b, places_b) = choose|order: Seq<int>, places: Seq<int>|
        is_arrangement(order, places) && arranged(input, b, order) && newest_first(b, order);
    lemma_same_order(
        input,
        a,
        order_a,
        places_a,
        b,
        order_b,
        places_b,
        input.len() as int,
    );
    assert forall|i: int| 0 <= i < a.len() implies a[i] == b[i] by {
        assert(a[i] == input[order_a[i]]);
        assert(b[i] == input[order_b[i]]);
    }
    assert(a =~= b);
}

/// Sorting leaves every post in: the sorted feed holds the same posts as the
/// list, each as often as the list holds it.
pub proof fn lemma_sorted_feed_keeps_posts(input: Seq<BlogPostView>, output: Seq<BlogPostView>)
    requires
        is_sorted_feed(input, output),
    ensures
        output.len() == input.len(),
        forall|j: int| 0 <= j < input.len() ==> output.contains(#[trigger] input[j]),
        forall|i: int| 0 <= i < output.len() ==> input.contains(#[trigger] output[i]),
{
    let (order, places) = choose|order: Seq<int>, places: Seq<int>|
        is_arrangement(order, places) && arranged(input, output, order) && newest_first(
            output,
            order,
        );
    assert forall|j: int| 0 <= j < input.len() implies output.contains(#[trigger] input[j]) by {
        assert(order[places[j]] == j);
        assert(output[places[j]] == input[j]);
    }
    assert forall|i: int| 0 <= i < output.len() implies input.contains(#[trigger] output[i]) by {
        assert(output[i] == input[order[i]]);
    }
}

/// In a sorted feed a post with a date stands before every post without
/// one, and of two posts with different dates the later one stands first.
pub proof fn lemma_sorted_feed_newest_first(
    input: Seq<BlogPostView>,
    output: Seq<BlogPostView>,
    i: int,
    j: int,
)
    requires
        is_sorted_feed(input, output),
        0 <= i < j < output.len(),
    ensures
        output[i].metadata.parsed_date is None ==> output[j].metadata.parsed_date is None,
        output[i].metadata.parsed_date is Some && output[j].metadata.parsed_date is Some
            ==> output[i].metadata.parsed_date.unwrap().instant()
            >= output[j].metadata.parsed_date.unwrap().instant(),
{
    let (order, places) = choose|order: Seq<int>, places: Seq<int>|
        is_arrangement(order, places) && arranged(input, output, order) && newest_first(
            output,
            order,
        );
    assert(rank(output[i]) >= rank(output[j]));
}

fn rank_of(post: &BlogPost) -> (r: u64)
    ensures
        r == rank(post@),
{
    match &post.metadata.parsed_date {
        Some(date) => date.sort_key() + 1,
        None => 0,
    }
}

/// Sorts posts by date: the newest first, the posts without a date last.
/// Posts of the same date, and those without one, stay in the order in
/// which they came.
pub fn sort_posts(posts: Vec<BlogPost>) -> (sorted: Vec<BlogPost>)
    ensures
        is_sorted_feed(post_views(posts@), post_views(sorted@)),
{
    let ghost input = post_views(posts@);
    let ghost mut order: Seq<int> = Seq::empty();
    let ghost mut places: Seq<int> = Seq::empty();
    let mut sorted: Vec<BlogPost> = Vec::new();
    for post in it: posts.into_iter()
        invariant
            it.seq() == posts@,
            input == post_views(posts@),
            sorted@.len() == it.index(),
            is_arrangement(order, places),
            arranged(input.take(it.index() as int), post_views(sorted@), order),
            newest_first(post_views(sorted@), order),
    {
        let ghost k = it.index() as int;
        let ghost before = post_views(sorted@);
        // The post goes behind every post of its rank or a higher one.
        let r = rank_of(&post);
        let mut at: usize = sorted.len();
        while at > 0 && rank_of(&sorted[at - 1]) < r
            invariant
                at <= sorted@.len(),
                r == rank(post@),
                forall|i: int| at <= i < sorted@.len() ==> rank(#[trigger] sorted@[i]@) < r,
            decreases at,
        {
            at = at - 1;
        }
        sorted.insert(at, post);
        proof {
            // The new post came from position `k` and stands at `at`; what
            // stood at `at` or behind it has moved one place back.
            let after = post_views(sorted@);
            let new_order = order.insert(at as int, k);
            let new_places = Seq::new(
                (k + 1) as nat,
                |j: int|
                    if j == k {
                        at as int
                    } else if places[j] >= at {
                        places[j] + 1
                    } else {
                        places[j]
                    },
            );
            assert(after =~= before.insert(at as int, post@));
            assert(input.take(k + 1)[k] == post@);
            assert forall|i: int| 0 <= i < new_order.len() implies 0 <= #[trigger] new_order[i]
                < new_order.len() && new_places[new_order[i]] == i by {
                if i < at {
                    assert(new_order[i] == order[i]);
                } else if i > at {
                    assert(new_order[i] == order[i - 1]);
                }
            }
            assert forall|j: int| 0 <= j < new_places.len() implies 0 <= #[trigger] new_places[j]
                < new_places.len() && new_order[new_places[j]] == j by {
                if j < k {
                    assert(order[places[j]] == j);
                }
            }
            assert forall|i: int| 0 <= i < after.len() implies 0 <= new_order[i] < k + 1
                && #[trigger] after[i] == input.take(k + 1)[new_order[i]] by {
                if i < at {
                    assert(after[i] == before[i]);
                } else if i > at {
                    assert(after[i] == before[i - 1]);
                }
            }
            assert forall|i: int, j: int| 0 <= i < j < after.len() implies rank(
                #[trigger] after[i],
            ) >= rank(#[trigger] after[j]) && (rank(after[i]) == rank(after[j]) ==> new_order[i]
                < new_order[j]) by {
                let a = if i < at {
                    i
                } else {
                    i - 1
                };
                let b = if j < at {
                    j
                } else {
                    j - 1
                };
                if i != at {
                    assert(after[i] == before[a]);
                    assert(0 <= order[a] < k);
                }
                if j != at {
                    assert(after[j] == before[b]);
                    assert(0 <= order[b] < k);
                }
                if i != at && j != at {
                    assert(a < b);
                }
                if j == at && at > 0 {
                    assert(rank(before[at - 1]) >= rank(post@));
                    if i < at - 1 {
                        assert(rank(before[i]) >= rank(before[at - 1]));
                    }
                }
            }
            order = new_order;
            places = new_places;
            assert(input.take(k + 1) =~= input.take((it.index() + 1) as int));
        }
    }
    assert(input.take(posts@.len() as int) =~= input);
    assert(is_arrangement(order, places) && arranged(input, post_views(sorted@), order)
        && newest_first(post_views(sorted@), order));
    sorted
}

} // verus!
