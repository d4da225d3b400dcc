//! What the output of the host's tools shows.

use crate::balance::{node_group, service_group, service_stem};
use crate::text::{
    characters, concat, decimal, find, found_at, is_digit, is_space, lemma_concat_contains,
    lemma_concat_push, lemma_decimal_digits, nth_word, option_text, other_than, position, push_word,
    stands_at, texts, without, word, word_end,
};
use vstd::prelude::*;

verus! {

/// The lines of a text from position `i` on.
pub open spec fn lines_from(text: Seq<char>, i: int) -> Seq<Seq<char>>
    decreases text.len() - i,
{
    let end = position(text, '\n', i);
    if 0 <= i <= end < text.len() {
        seq![text.subrange(i, end)] + lines_from(text, end + 1)
    } else if 0 <= i <= text.len() {
        seq![text.subrange(i, text.len() as int)]
    } else {
        Seq::empty()
    }
}

/// The first word of the line from position `i` on, if any.
pub open spec fn word_or_nothing(line: Seq<char>, i: int) -> Seq<char> {
    match nth_word(line, i, 0) {
        Some(w) => w,
        None => Seq::empty(),
    }
}

/// The endpoint chain whose listing a line begins, if it begins that of one.
pub open spec fn listed_chain(line: Seq<char>) -> Option<Seq<char>> {
    if stands_at(line, "Chain KUBE-SEP-"@, 0) {
        Some("KUBE-SEP-"@ + word_or_nothing(line, "Chain KUBE-SEP-"@.len() as int))
    } else if stands_at(line, "Chain KUBE-NP-SEP-"@, 0) {
        Some("KUBE-NP-SEP-"@ + word_or_nothing(line, "Chain KUBE-NP-SEP-"@.len() as int))
    } else {
        None
    }
}

/// The endpoint chains among the first `n` lines.
pub open spec fn listed_chains(lines: Seq<Seq<char>>, n: nat) -> Seq<Seq<char>> {
    concat(
        Seq::new(
            n,
            |i: int|
                match listed_chain(lines[i]) {
                    Some(chain) => seq![chain],
                    None => Seq::empty(),
                },
        ),
    )
}

/// The endpoint chains that a listing of the NAT table shows, in its order.
pub open spec fn leftover_chains(listing: Seq<char>) -> Seq<Seq<char>> {
    let lines = lines_from(listing, 0);
    listed_chains(lines, lines.len())
}

fn first_word(line: &Vec<char>, from: usize) -> (found: String)
    requires
        from <= line.len(),
    ensures
        found@ == word_or_nothing(line@, from as int),
{
    match word(line, from, 0) {
        Some(w) => w,
        None => String::new(),
    }
}

/// The endpoint chain whose listing a line begins.
pub fn chain_of_line(line: &Vec<char>) -> (chain: Option<String>)
    ensures
        option_text(chain) == listed_chain(line@),
{
    let service = characters("Chain KUBE-SEP-");
    let node = characters("Chain KUBE-NP-SEP-");
    if found_at(line, &service, 0) {
        let mut chain = "KUBE-SEP-".to_string();
        chain.append(first_word(line, service.len()).as_str());
        Some(chain)
    } else if found_at(line, &node, 0) {
        let mut chain = "KUBE-NP-SEP-".to_string();
        chain.append(first_word(line, node.len()).as_str());
        Some(chain)
    } else {
        None
    }
}

fn lines_of(all: &Vec<char>, from: usize) -> (lines: Vec<Vec<char>>)
    requires
        from <= all.len(),
    ensures
        lines@.map_values(|l: Vec<char>| l@) == lines_from(all@, from as int),
{
    let mut lines: Vec<Vec<char>> = Vec::new();
    let mut start: usize = from;
    let ghost view = |l: Vec<char>| l@;
    loop
        invariant
            from <= start <= all.len(),
            view == (|l: Vec<char>| l@),
            lines@.map_values(view) + lines_from(all@, start as int) == lines_from(
                all@,
                from as int,
            ),
        decreases all.len() - start,
    {
        let end: usize = find(all, '\n', start);
        let mut line: Vec<char> = Vec::new();
        let mut i: usize = start;
        while i < end
            invariant
                start <= i <= end <= all.len(),
                line@ == all@.subrange(start as int, i as int),
            decreases end - i,
        {
            line.push(all[i]);
            i += 1;
            assert(line@ =~= all@.subrange(start as int, i as int));
        }
        let ghost before = lines@;
        lines.push(line);
        assert(lines@.map_values(view) =~= before.map_values(view).push(
            all@.subrange(start as int, end as int),
        ));
        if end == all.len() {
            assert(lines_from(all@, start as int) =~= seq![
                all@.subrange(start as int, end as int),
            ]);
            assert(lines@.map_values(view) =~= lines_from(all@, from as int));
            return lines;
        }
        assert(lines@.map_values(view) + lines_from(all@, end + 1) =~= before.map_values(view)
            + lines_from(all@, start as int));
        start = end + 1;
    }
}

/// Finds the endpoint chains that a listing of the NAT table shows.
pub fn find_leftovers(listing: &str) -> (chains: Vec<String>)
    ensures
        texts(chains@) == leftover_chains(listing@),
{
    let all = characters(listing);
    let lines = lines_of(&all, 0);
    let mut chains: Vec<String> = Vec::new();
    let ghost views = lines_from(listing@, 0);
    let mut i: usize = 0;
    assert(texts(chains@) =~= listed_chains(views, 0));
    while i < lines.len()
        invariant
            i <= lines.len(),
            views == lines@.map_values(|l: Vec<char>| l@),
            texts(chains@) == listed_chains(views, i as nat),
        decreases lines.len() - i,
    {
        let ghost before = texts(chains@);
        assert(views[i as int] == lines@[i as int]@);
        let found = chain_of_line(&lines[i]);
        proof {
            lemma_listed_step(views, i as nat);
        }
        match found {
            Some(chain) => {
                push_word(&mut chains, chain.as_str());
                assert(texts(chains@) =~= before + seq![chain@]);
            },
            None => {
                assert(before =~= before + Seq::<Seq<char>>::empty());
            },
        }
        i += 1;
    }
    chains
}

proof fn lemma_listed_step(lines: Seq<Seq<char>>, n: nat)
    ensures
        listed_chains(lines, n + 1) == listed_chains(lines, n) + match listed_chain(
            lines[n as int],
        ) {
            Some(chain) => seq![chain],
            None => Seq::empty(),
        },
{
    let f = |i: int|
        match listed_chain(lines[i]) {
            Some(chain) => seq![chain],
            None => Seq::empty(),
        };
    assert(Seq::new(n, f).push(f(n as int)) =~= Seq::new(n + 1, f));
    lemma_concat_push(Seq::new(n, f), f(n as int));
}

// ---------------------------------------------------------------------------
// Laws
// ---------------------------------------------------------------------------

/// Whether a text holds no white space.
pub open spec fn unbroken(text: Seq<char>) -> bool {
    forall|k: int| 0 <= k < text.len() ==> !is_space(#[trigger] text[k])
}

proof fn lemma_word_end(text: Seq<char>, a: int, b: int)
    requires
        0 <= a <= b <= text.len(),
        forall|k: int| a <= k < b ==> !is_space(#[trigger] text[k]),
        b == text.len() || is_space(text[b]),
    ensures
        word_end(text, a) == b,
    decreases b - a,
{
    if a < b {
        lemma_word_end(text, a + 1, b);
    }
}

/// A line that goes on with a word of the given prefix and stem names that word.
proof fn lemma_named_word(kind: Seq<char>, stem: Seq<char>, rest: Seq<char>)
    requires
        stem.len() > 0,
        unbroken(stem),
        rest.len() == 0 || is_space(rest[0]),
    ensures
        stands_at(kind + stem + rest, kind, 0),
        word_or_nothing(kind + stem + rest, kind.len() as int) == stem,
{
    let line = kind + stem + rest;
    let a = kind.len() as int;
    let b = (kind.len() + stem.len()) as int;
    assert(line.subrange(0, a) =~= kind);
    assert forall|k: int| a <= k < b implies !is_space(#[trigger] line[k]) by {
        assert(line[k] == stem[k - a]);
    }
    assert(rest.len() > 0 ==> line[b] == rest[0]);
    lemma_word_end(line, a, b);
    assert(!is_space(line[a]));
    assert(line.subrange(a, b) =~= stem);
    assert(nth_word(line, a, 0) == Some(stem));
}

proof fn lemma_digits_unbroken(n: nat)
    ensures
        unbroken(decimal(n)),
        decimal(n).len() > 0,
{
    lemma_decimal_digits(n);
    assert forall|k: int| 0 <= k < decimal(n).len() implies !is_space(#[trigger] decimal(n)[k]) by {
        assert(is_digit(decimal(n)[k]));
    }
}

proof fn lemma_unbroken_add(a: Seq<char>, b: Seq<char>)
    requires
        unbroken(a),
        unbroken(b),
    ensures
        unbroken(a + b),
{
    assert forall|k: int| 0 <= k < (a + b).len() implies !is_space(#[trigger] (a + b)[k]) by {
        if k < a.len() {
            assert((a + b)[k] == a[k]);
        } else {
            assert((a + b)[k] == b[k - a.len()]);
        }
    }
}

proof fn lemma_dash_unbroken()
    ensures
        unbroken("-"@),
{
    reveal_strlit("-");
}

proof fn lemma_filter_unbroken(text: Seq<char>)
    requires
        unbroken(text),
    ensures
        unbroken(without(text, '.')),
    decreases text.len(),
{
    reveal(Seq::filter);
    if text.len() > 0 {
        let init = text.drop_last();
        assert forall|k: int| 0 <= k < init.len() implies !is_space(#[trigger] init[k]) by {
            assert(init[k] == text[k]);
        }
        lemma_filter_unbroken(init);
        assert(!is_space(text.last()));
        let kept = init.filter(other_than('.'));
        if text.last() != '.' {
            assert(without(text, '.') == kept.push(text.last()));
        } else {
            assert(without(text, '.') == kept);
        }
    }
}

/// The heading of the listing of a chain.
pub open spec fn heading(chain: Seq<char>, rest: Seq<char>) -> Seq<char> {
    "Chain "@ + chain + rest
}

/// The chain of an endpoint of a service port is recognised in a listing, where the address of
/// the service holds no white space.
pub proof fn law_service_chain_is_recognised(
    ip: Seq<char>,
    port: nat,
    i: nat,
    rest: Seq<char>,
)
    requires
        unbroken(ip),
        rest.len() == 0 || is_space(rest[0]),
    ensures
        listed_chain(heading(service_group(ip, port).chain(i), rest)) == Some(
            service_group(ip, port).chain(i),
        ),
{
    let stem = service_stem(ip, port) + decimal(i);
    let kind = "Chain KUBE-SEP-"@;
    lemma_filter_unbroken(ip);
    lemma_dash_unbroken();
    lemma_digits_unbroken(port);
    lemma_digits_unbroken(i);
    lemma_unbroken_add(without(ip, '.'), "-"@);
    lemma_unbroken_add(without(ip, '.') + "-"@, decimal(port));
    lemma_unbroken_add(without(ip, '.') + "-"@ + decimal(port), "-"@);
    lemma_unbroken_add(service_stem(ip, port), decimal(i));
    reveal_strlit("Chain ");
    reveal_strlit("KUBE-SEP-");
    reveal_strlit("Chain KUBE-SEP-");
    assert("Chain "@ + "KUBE-SEP-"@ =~= kind);
    assert(heading(service_group(ip, port).chain(i), rest) =~= kind + stem + rest);
    lemma_named_word(kind, stem, rest);
    assert(service_group(ip, port).chain(i) =~= "KUBE-SEP-"@ + stem);
}

/// The chain of an endpoint of a node port is recognised in a listing.
pub proof fn law_node_chain_is_recognised(node_port: nat, i: nat, rest: Seq<char>)
    requires
        rest.len() == 0 || is_space(rest[0]),
    ensures
        listed_chain(heading(node_group(node_port).chain(i), rest)) == Some(
            node_group(node_port).chain(i),
        ),
{
    let stem = decimal(node_port) + "-"@ + decimal(i);
    let kind = "Chain KUBE-NP-SEP-"@;
    lemma_dash_unbroken();
    lemma_digits_unbroken(node_port);
    lemma_digits_unbroken(i);
    lemma_unbroken_add(decimal(node_port), "-"@);
    lemma_unbroken_add(decimal(node_port) + "-"@, decimal(i));
    reveal_strlit("Chain ");
    reveal_strlit("KUBE-NP-SEP-");
    reveal_strlit("Chain KUBE-NP-SEP-");
    reveal_strlit("Chain KUBE-SEP-");
    assert("Chain "@ + "KUBE-NP-SEP-"@ =~= kind);
    let line = heading(node_group(node_port).chain(i), rest);
    assert(line =~= kind + stem + rest);
    lemma_named_word(kind, stem, rest);
    assert(node_group(node_port).chain(i) =~= "KUBE-NP-SEP-"@ + stem);
    assert(line[11] == 'N');
    if stands_at(line, "Chain KUBE-SEP-"@, 0) {
        assert(line.subrange(0, "Chain KUBE-SEP-"@.len() as int)[11] == 'S');
    }
}

/// The chains that a listing shows are those that its lines show.
pub proof fn law_leftovers_are_listed(listing: Seq<char>, chain: Seq<char>)
    ensures
        leftover_chains(listing).contains(chain) <==> exists|i: int|
            0 <= i < lines_from(listing, 0).len() && listed_chain(
                #[trigger] lines_from(listing, 0)[i],
            ) == Some(chain),
{
    let lines = lines_from(listing, 0);
    let f = |i: int|
        match listed_chain(lines[i]) {
            Some(chain) => seq![chain],
            None => Seq::empty(),
        };
    let blocks = Seq::new(lines.len(), f);
    lemma_concat_contains(blocks, chain);
    if leftover_chains(listing).contains(chain) {
        let i = choose|i: int| 0 <= i < blocks.len() && (#[trigger] blocks[i]).contains(chain);
        assert(listed_chain(lines[i]) == Some(chain));
    }
    if exists|i: int| 0 <= i < lines.len() && listed_chain(#[trigger] lines[i]) == Some(chain) {
        let i = choose|i: int|
            0 <= i < lines.len() && listed_chain(#[trigger] lines[i]) == Some(chain);
        assert(blocks[i][0] == chain);
        assert(blocks[i].contains(chain));
    }
}

} // verus!
