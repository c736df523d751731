//! Sibling navigation: the order in which the other entries of the current
//! image's directory are tried when stepping forward or backward.
//!
//! The directory is listed afresh for every request, in the platform's own
//! enumeration order. The candidates are a rotation of that order which
//! starts just after the current image and wraps around to end with it.

use vstd::prelude::*;

verus! {

/// Which way to step through the directory.
#[derive(Clone, Copy, Debug, PartialEq, Eq, Structural)]
pub enum Direction {
    Next,
    Previous,
}

/// Why a navigation request changed nothing.
#[derive(Clone, Copy, Debug, PartialEq, Eq, Structural)]
pub enum NavigationError {
    /// No image is open, so there is no directory to look in.
    NoCurrentPath,
    /// The current path has no parent directory.
    NoParentDirectory,
    /// The parent directory could not be read.
    DirectoryUnreadable,
    /// None of the candidates could be decoded.
    NoNavigableImage,
}

/// What reading the parent directory of the current image gave.
#[derive(Debug)]
pub enum Listing {
    /// The current path has no parent directory.
    NoParentDirectory,
    /// The parent directory, or one of its entries, could not be read.
    Unreadable,
    /// The paths of the directory's entries, in enumeration order.
    Entries(Vec<String>),
}

/// The number of leading entries up to and including the first occurrence of
/// `path`; all of them when `path` does not occur.
pub open spec fn split_point<T>(entries: Seq<T>, path: T) -> int
    decreases entries.len(),
{
    if entries.len() == 0 {
        0
    } else if entries[0] == path {
        1
    } else {
        1 + split_point(entries.skip(1), path)
    }
}

/// The predicate that holds of `path` alone.
pub open spec fn is_path<T>(path: T) -> spec_fn(T) -> bool {
    |entry: T| entry == path
}

/// The predicate that holds of everything but `path`.
pub open spec fn is_other<T>(path: T) -> spec_fn(T) -> bool {
    |entry: T| entry != path
}

/// The entries met up to and including `path`, followed by any later
/// repetitions of `path`.
pub open spec fn before<T>(entries: Seq<T>, path: T) -> Seq<T> {
    let split = split_point(entries, path);
    entries.take(split) + entries.skip(split).filter(is_path(path))
}

/// The entries met after `path`, in enumeration order.
pub open spec fn after<T>(entries: Seq<T>, path: T) -> Seq<T> {
    entries.skip(split_point(entries, path)).filter(is_other(path))
}

/// The candidates for stepping forward from `path`: the entries after it,
/// then those up to and including it. When `path` is not listed this is the
/// listing itself.
pub open spec fn siblings<T>(entries: Seq<T>, path: T) -> Seq<T> {
    after(entries, path) + before(entries, path)
}

/// The position in the forward candidates of the candidate tried at
/// `attempt` when stepping backward.
pub open spec fn backward_index(count: int, attempt: int) -> int
    recommends
        0 <= attempt < count,
{
    (2 * count - attempt - 2) % count
}

/// The candidates for stepping backward: the forward candidates walked in
/// reverse, starting with the one just before the current image.
pub open spec fn backward<T>(forward: Seq<T>) -> Seq<T> {
    Seq::new(forward.len(), |attempt: int| forward[backward_index(forward.len() as int, attempt)])
}

/// The candidates for stepping from `path` in `direction`.
pub open spec fn candidates<T>(direction: Direction, entries: Seq<T>, path: T) -> Seq<T> {
    match direction {
        Direction::Next => siblings(entries, path),
        Direction::Previous => backward(siblings(entries, path)),
    }
}

/// What `split_point` finds: either the first occurrence of `path` sits just
/// before it, or `path` does not occur and it is the length.
pub proof fn lemma_split_point<T>(entries: Seq<T>, path: T)
    ensures
        0 <= split_point(entries, path) <= entries.len(),
        forall|j: int| 0 <= j < split_point(entries, path) - 1 ==> entries[j] != path,
        entries.contains(path) ==> split_point(entries, path) >= 1 && entries[split_point(
            entries,
            path,
        ) - 1] == path,
        !entries.contains(path) ==> split_point(entries, path) == entries.len(),
    decreases entries.len(),
{
    if entries.len() == 0 {
    } else if entries[0] == path {
    } else {
        let rest = entries.skip(1);
        lemma_split_point(rest, path);
        let inner: int = split_point(rest, path);
        assert forall|j: int| 0 <= j < inner implies entries[j] != path by {
            if j > 0 {
                assert(rest[j - 1] == entries[j]);
            }
        }
        if entries.contains(path) {
            let k: int = choose|k: int| 0 <= k < entries.len() && entries[k] == path;
            assert(rest[k - 1] == path);
            assert(rest[inner - 1] == entries[inner]);
        } else {
            if rest.contains(path) {
                let k: int = choose|k: int| 0 <= k < rest.len() && rest[k] == path;
                assert(entries[k + 1] == path);
            }
        }
    }
}

impl Listing {
    /// The listed paths as sequences of characters; empty when the directory
    /// was not read.
    pub open spec fn paths(self) -> Seq<Seq<char>> {
        match self {
            Listing::Entries(entries) => entries.deep_view(),
            _ => Seq::empty(),
        }
    }
}

/// The error that keeps a request from yielding candidates, if there is one.
pub open spec fn listing_error(path: Option<Seq<char>>, listing: Listing) -> Option<
    NavigationError,
> {
    if path is None {
        Some(NavigationError::NoCurrentPath)
    } else {
        match listing {
            Listing::NoParentDirectory => Some(NavigationError::NoParentDirectory),
            Listing::Unreadable => Some(NavigationError::DirectoryUnreadable),
            Listing::Entries(_) => None,
        }
    }
}

/// Whether `result` is what a request to step from `path` in `direction`
/// owes its caller: the error that stands in the way, or else the candidates
/// in the order in which they are to be tried.
pub open spec fn answers(
    result: Result<Vec<String>, NavigationError>,
    direction: Direction,
    path: Option<Seq<char>>,
    listing: Listing,
) -> bool {
    match result {
        Ok(found) => listing_error(path, listing) is None && found.deep_view() == candidates(
            direction,
            listing.paths(),
            path->0,
        ),
        Err(error) => listing_error(path, listing) == Some(error),
    }
}

/// The forward candidates for leaving `path`, given what listing its parent
/// directory gave.
pub fn siblings_from(path: Option<&String>, listing: &Listing) -> (result: Result<
    Vec<String>,
    NavigationError,
>)
    ensures
        answers(result, Direction::Next, path.deep_view(), *listing),
{
    let current = match path {
        None => {
            return Err(NavigationError::NoCurrentPath);
        },
        Some(current) => current,
    };
    let entries = match listing {
        Listing::NoParentDirectory => {
            return Err(NavigationError::NoParentDirectory);
        },
        Listing::Unreadable => {
            return Err(NavigationError::DirectoryUnreadable);
        },
        Listing::Entries(entries) => entries,
    };
    let ghost all = entries.deep_view();
    let ghost target = current@;
    let ghost split = split_point(all, target);
    let mut leading: Vec<String> = Vec::new();
    let mut trailing: Vec<String> = Vec::new();
    let mut found = false;
    let mut i: usize = 0;
    proof {
        lemma_split_point(all, target);
        assert(all.take(0) =~= Seq::<Seq<char>>::empty());
    }
    while i < entries.len()
        invariant
            0 <= i <= entries.len(),
            all == entries.deep_view(),
            target == current@,
            split == split_point(all, target),
            0 <= split <= all.len(),
            forall|j: int| 0 <= j < split - 1 ==> all[j] != target,
            all.contains(target) ==> split >= 1 && all[split - 1] == target,
            !all.contains(target) ==> split == all.len(),
            !found ==> (forall|j: int| 0 <= j < i ==> all[j] != target),
            !found ==> leading.deep_view() == all.take(i as int) && trailing@.len() == 0,
            found ==> split <= i && all.contains(target),
            found ==> leading.deep_view() == all.take(split) + all.subrange(
                split,
                i as int,
            ).filter(is_path(target)),
            found ==> trailing.deep_view() == all.subrange(split, i as int).filter(
                is_other(target),
            ),
        decreases entries.len() - i,
    {
        let entry = entries[i].clone();
        let ghost old_leading = leading.deep_view();
        let ghost old_trailing = trailing.deep_view();
        let ghost seen = all.subrange(split, i as int);
        assert(entry@ == all[i as int]);
        if entries[i] == *current {
            proof {
                if found {
                    assert(all.subrange(split, i + 1) =~= seen.push(all[i as int]));
                    seen.lemma_filter_push(all[i as int], is_path(target));
                    seen.lemma_filter_push(all[i as int], is_other(target));
                } else {
                    assert(split == i + 1);
                    assert(all.subrange(split, i + 1) =~= Seq::<Seq<char>>::empty());
                    assert(all.subrange(split, i + 1).filter(is_path(target)) =~= Seq::<
                        Seq<char>,
                    >::empty()) by {
                        all.subrange(split, i + 1).lemma_filter_len(is_path(target));
                    }
                    assert(all.subrange(split, i + 1).filter(is_other(target)) =~= Seq::<
                        Seq<char>,
                    >::empty()) by {
                        all.subrange(split, i + 1).lemma_filter_len(is_other(target));
                    }
                }
            }
            found = true;
            leading.push(entry);
            assert(leading.deep_view() =~= old_leading.push(all[i as int]));
            assert(trailing.deep_view() =~= old_trailing);
            assert(leading.deep_view() =~= all.take(split) + all.subrange(split, i + 1).filter(
                is_path(target),
            ));
        } else if found {
            proof {
                assert(all.subrange(split, i + 1) =~= seen.push(all[i as int]));
                seen.lemma_filter_push(all[i as int], is_path(target));
                seen.lemma_filter_push(all[i as int], is_other(target));
            }
            trailing.push(entry);
            assert(trailing.deep_view() =~= old_trailing.push(all[i as int]));
            assert(leading.deep_view() =~= old_leading);
        } else {
            leading.push(entry);
            assert(leading.deep_view() =~= old_leading.push(all[i as int]));
            assert(leading.deep_view() =~= all.take(i + 1));
        }
        i += 1;
    }
    proof {
        if found {
            assert(all.subrange(split, i as int) =~= all.skip(split));
        } else {
            assert(!all.contains(target));
            assert(all.skip(split) =~= Seq::<Seq<char>>::empty());
            assert(all.skip(split).filter(is_path(target)) =~= Seq::<Seq<char>>::empty()) by {
                all.skip(split).lemma_filter_len(is_path(target));
            }
            assert(all.skip(split).filter(is_other(target)) =~= Seq::<Seq<char>>::empty()) by {
                all.skip(split).lemma_filter_len(is_other(target));
            }
            assert(trailing.deep_view() =~= Seq::<Seq<char>>::empty());
        }
    }
    let ghost head = trailing.deep_view();
    let ghost tail = leading.deep_view();
    trailing.append(&mut leading);
    assert(trailing.deep_view() =~= head + tail);
    Ok(trailing)
}

/// The candidates for stepping forward from `path`, first to last.
pub fn next(path: Option<&String>, listing: &Listing) -> (result: Result<
    Vec<String>,
    NavigationError,
>)
    ensures
        answers(result, Direction::Next, path.deep_view(), *listing),
{
    siblings_from(path, listing)
}

/// The candidates for stepping backward from `path`, first to last.
pub fn previous(path: Option<&String>, listing: &Listing) -> (result: Result<
    Vec<String>,
    NavigationError,
>)
    ensures
        answers(result, Direction::Previous, path.deep_view(), *listing),
{
    let forward = match siblings_from(path, listing) {
        Ok(forward) => forward,
        Err(error) => {
            return Err(error);
        },
    };
    let count: usize = forward.len();
    let mut reversed: Vec<String> = Vec::new();
    let mut attempt: usize = 0;
    while attempt < count
        invariant
            0 <= attempt <= count,
            count == forward.len(),
            reversed.len() == attempt,
            forall|j: int|
                0 <= j < attempt ==> #[trigger] reversed[j]@ == forward[backward_index(
                    count as int,
                    j,
                )]@,
        decreases count - attempt,
    {
        let position: usize = if count - attempt >= 2 {
            count - 2 - attempt
        } else {
            count - 1
        };
        assert(position == backward_index(count as int, attempt as int)) by (nonlinear_arith)
            requires
                0 <= attempt < count,
                position == (if count - attempt >= 2 {
                    count - 2 - attempt
                } else {
                    count - 1
                }),
                backward_index(count as int, attempt as int) == (2 * count - attempt - 2) % (
                count as int),
        ;
        reversed.push(forward[position].clone());
        attempt += 1;
    }
    assert(reversed.deep_view() =~= backward(forward.deep_view())) by {
        assert forall|j: int| 0 <= j < count implies 0 <= (#[trigger] backward_index(
            count as int,
            j,
        )) && backward_index(count as int, j) < count by {
            assert(0 <= (2 * count - j - 2) % (count as int) < count) by (nonlinear_arith)
                requires
                    count > 0,
            ;
        }
    }
    Ok(reversed)
}

/// The candidates for stepping from `path` in `direction`, first to last.
pub fn candidates_from(direction: Direction, path: Option<&String>, listing: &Listing) -> (result:
    Result<Vec<String>, NavigationError>)
    ensures
        answers(result, direction, path.deep_view(), *listing),
{
    match direction {
        Direction::Next => next(path, listing),
        Direction::Previous => previous(path, listing),
    }
}

/// How a navigation request starts: with the error that stands in the way,
/// with `NoNavigableImage` when the directory offers no candidate, or with
/// the candidates in the order in which they are to be tried.
pub open spec fn navigation_start(
    direction: Direction,
    path: Option<Seq<char>>,
    listing: Listing,
) -> Result<Seq<Seq<char>>, NavigationError> {
    match listing_error(path, listing) {
        Some(error) => Err(error),
        None => {
            let order = candidates(direction, listing.paths(), path->0);
            if order.len() == 0 {
                Err(NavigationError::NoNavigableImage)
            } else {
                Ok(order)
            }
        },
    }
}

/// A navigation request under way: the candidates that have not been ruled
/// out yet, of which there is always at least one.
#[derive(Debug)]
pub struct Navigation {
    order: Vec<String>,
    tried: usize,
}

impl Navigation {
    #[verifier::type_invariant]
    spec fn has_candidate(self) -> bool {
        self.tried < self.order.len()
    }

    /// The candidates still to be tried, the next one first.
    pub closed spec fn remaining(self) -> Seq<Seq<char>> {
        self.order.deep_view().skip(self.tried as int)
    }

    /// Starts a request to step from `path` in `direction`, given what
    /// listing the parent directory of `path` gave.
    pub fn begin(direction: Direction, path: Option<&String>, listing: &Listing) -> (started:
        Result<Navigation, NavigationError>)
        ensures
            match started {
                Ok(navigation) => navigation_start(direction, path.deep_view(), *listing) == Ok::<
                    Seq<Seq<char>>,
                    NavigationError,
                >(navigation.remaining()),
                Err(error) => navigation_start(direction, path.deep_view(), *listing) == Err::<
                    Seq<Seq<char>>,
                    NavigationError,
                >(error),
            },
    {
        match candidates_from(direction, path, listing) {
            Err(error) => Err(error),
            Ok(order) => {
                if order.len() == 0 {
                    Err(NavigationError::NoNavigableImage)
                } else {
                    assert(order.deep_view().skip(0) =~= order.deep_view());
                    Ok(Navigation { order, tried: 0 })
                }
            },
        }
    }

    /// The candidate to decode next.
    pub fn candidate(&self) -> (path: &String)
        ensures
            self.remaining().len() > 0,
            path@ == self.remaining()[0],
    {
        proof {
            use_type_invariant(self);
        }
        &self.order[self.tried]
    }

    /// Rules out the current candidate: the request goes on with the next
    /// one, or ends with `NoNavigableImage` when none is left.
    pub fn reject(self) -> (next: Result<Navigation, NavigationError>)
        ensures
            match next {
                Ok(navigation) => self.remaining().len() > 1 && navigation.remaining()
                    == self.remaining().skip(1),
                Err(error) => self.remaining().len() == 1 && error
                    == NavigationError::NoNavigableImage,
            },
    {
        proof {
            use_type_invariant(&self);
        }
        if self.order.len() - self.tried > 1 {
            let ghost before = self.remaining();
            let next = Navigation { order: self.order, tried: self.tried + 1 };
            assert(next.remaining() =~= before.skip(1));
            Ok(next)
        } else {
            Err(NavigationError::NoNavigableImage)
        }
    }
}

/// A filter that every element passes keeps the sequence as it is.
proof fn lemma_filter_keeps_all<T>(entries: Seq<T>, pred: spec_fn(T) -> bool)
    requires
        forall|j: int| 0 <= j < entries.len() ==> pred(#[trigger] entries[j]),
    ensures
        entries.filter(pred) == entries,
    decreases entries.len(),
{
    if entries.len() == 0 {
        entries.lemma_filter_len(pred);
        assert(entries.filter(pred) =~= entries);
    } else {
        let front = entries.drop_last();
        lemma_filter_keeps_all(front, pred);
        front.lemma_filter_push(entries.last(), pred);
        assert(front.push(entries.last()) =~= entries);
    }
}

/// A filter that no element passes leaves nothing.
proof fn lemma_filter_keeps_none<T>(entries: Seq<T>, pred: spec_fn(T) -> bool)
    requires
        forall|j: int| 0 <= j < entries.len() ==> !pred(#[trigger] entries[j]),
    ensures
        entries.filter(pred) == Seq::<T>::empty(),
    decreases entries.len(),
{
    if entries.len() == 0 {
        entries.lemma_filter_len(pred);
        assert(entries.filter(pred) =~= Seq::<T>::empty());
    } else {
        let front = entries.drop_last();
        lemma_filter_keeps_none(front, pred);
        front.lemma_filter_push(entries.last(), pred);
        assert(front.push(entries.last()) =~= entries);
    }
}

/// In a listing without repetitions the forward candidates from a listed
/// path are the plain rotation of the listing that ends with that path.
pub proof fn lemma_siblings_rotate<T>(entries: Seq<T>, position: int)
    requires
        entries.no_duplicates(),
        0 <= position < entries.len(),
    ensures
        split_point(entries, entries[position]) == position + 1,
        siblings(entries, entries[position]) == entries.skip(position + 1) + entries.take(
            position + 1,
        ),
{
    let path = entries[position];
    lemma_split_point(entries, path);
    let split: int = split_point(entries, path);
    assert(entries.contains(path));
    assert(split == position + 1);
    let rest = entries.skip(split);
    lemma_filter_keeps_all(rest, is_other(path));
    lemma_filter_keeps_none(rest, is_path(path));
    assert(entries.take(split) + Seq::<T>::empty() =~= entries.take(split));
}

/// Splitting a sequence by a predicate and by its negation loses and adds
/// nothing.
proof fn lemma_filter_partition<T>(entries: Seq<T>, kept: spec_fn(T) -> bool, rest: spec_fn(T) -> bool)
    requires
        forall|entry: T| #[trigger] kept(entry) != rest(entry),
    ensures
        entries.filter(kept).to_multiset().add(entries.filter(rest).to_multiset())
            == entries.to_multiset(),
    decreases entries.len(),
{
    broadcast use vstd::seq_lib::to_multiset_build;

    if entries.len() == 0 {
        entries.lemma_filter_len(kept);
        entries.lemma_filter_len(rest);
        assert(entries.filter(kept) =~= entries);
        assert(entries.filter(rest) =~= entries);
        assert(entries.to_multiset().add(entries.to_multiset()) =~= entries.to_multiset()) by {
            entries.to_multiset_ensures();
        }
    } else {
        let front = entries.drop_last();
        let last = entries.last();
        lemma_filter_partition(front, kept, rest);
        front.lemma_filter_push(last, kept);
        front.lemma_filter_push(last, rest);
        assert(front.push(last) =~= entries);
        assert(kept(last) != rest(last));
        assert(entries.filter(kept).to_multiset().add(entries.filter(rest).to_multiset())
            =~= entries.to_multiset());
    }
}

/// The forward candidates are the entries of the directory, each as often
/// as it is listed: none is left out and none is tried twice.
pub proof fn lemma_siblings_permute<T>(entries: Seq<T>, path: T)
    ensures
        siblings(entries, path).to_multiset() == entries.to_multiset(),
        siblings(entries, path).len() == entries.len(),
{
    lemma_split_point(entries, path);
    let split: int = split_point(entries, path);
    let head = entries.take(split);
    let tail = entries.skip(split);
    let same = tail.filter(is_path(path));
    let others = tail.filter(is_other(path));
    lemma_filter_partition(tail, is_other(path), is_path(path));
    vstd::seq_lib::lemma_multiset_commutative(head, same);
    vstd::seq_lib::lemma_multiset_commutative(others, head + same);
    vstd::seq_lib::lemma_multiset_commutative(head, tail);
    assert(head + tail =~= entries);
    assert(siblings(entries, path).to_multiset() =~= entries.to_multiset());
    siblings(entries, path).to_multiset_ensures();
    entries.to_multiset_ensures();
}

/// Stepping backward tries the forward candidates in reverse, except that
/// the last of them, the current image, stays last.
pub proof fn lemma_backward_reverses<T>(forward: Seq<T>)
    requires
        forward.len() > 0,
    ensures
        backward(forward) == forward.drop_last().reverse().push(forward.last()),
{
    let count: int = forward.len() as int;
    let mirrored = forward.drop_last().reverse().push(forward.last());
    assert forall|attempt: int| 0 <= attempt < count implies backward(forward)[attempt]
        == mirrored[attempt] by {
        let position: int = backward_index(count, attempt);
        assert(position == (if attempt < count - 1 {
            count - 2 - attempt
        } else {
            count - 1
        })) by (nonlinear_arith)
            requires
                0 <= attempt < count,
                position == (2 * count - attempt - 2) % count,
        ;
    }
    assert(backward(forward) =~= mirrored);
}

/// Round-trip adjacency: stepping forward from a listed path and then
/// backward from the first candidate tries the starting path first, in any
/// listing without repetitions.
pub proof fn lemma_round_trip<T>(entries: Seq<T>, path: T)
    requires
        entries.no_duplicates(),
        entries.contains(path),
    ensures
        siblings(entries, path).len() == entries.len(),
        candidates(
            Direction::Previous,
            entries,
            candidates(Direction::Next, entries, path)[0],
        )[0] == path,
{
    let count: int = entries.len() as int;
    let position: int = choose|k: int| 0 <= k < entries.len() && entries[k] == path;
    lemma_siblings_rotate(entries, position);
    let forward = siblings(entries, path);
    let first = forward[0];
    let landing: int = if position + 1 < count {
        position + 1
    } else {
        0
    };
    assert(first == entries[landing]);
    lemma_siblings_rotate(entries, landing);
    let again = siblings(entries, first);
    assert(again.len() == count);
    let probe: int = backward_index(count, 0);
    assert(probe == (if count >= 2 {
        count - 2
    } else {
        0
    })) by (nonlinear_arith)
        requires
            count >= 1,
            probe == (2 * count - 0 - 2) % count,
    ;
    assert(again[probe] == path);
}

/// An empty directory offers no candidates in either direction.
pub proof fn lemma_empty_listing<T>(direction: Direction, path: T)
    ensures
        candidates(direction, Seq::<T>::empty(), path) == Seq::<T>::empty(),
{
    let none = Seq::<T>::empty();
    assert(split_point(none, path) == 0);
    none.skip(0).lemma_filter_len(is_path(path));
    none.skip(0).lemma_filter_len(is_other(path));
    assert(siblings(none, path) =~= none);
    assert(backward(none) =~= none);
}

/// Navigating in an empty directory fails with `NoNavigableImage`, whichever
/// way the step goes.
pub proof fn lemma_empty_directory(direction: Direction, path: Seq<char>, listing: Listing)
    requires
        listing is Entries,
        listing.paths().len() == 0,
    ensures
        navigation_start(direction, Some(path), listing) == Err::<Seq<Seq<char>>, NavigationError>(
            NavigationError::NoNavigableImage,
        ),
{
    assert(listing.paths() =~= Seq::<Seq<char>>::empty());
    lemma_empty_listing(direction, path);
}

} // verus!
