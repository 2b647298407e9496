//! What the program is told to do: the URLs and numbers of its command line.
use vstd::prelude::*;

use crate::text::{all_entries, entries, push_entries, texts};

verus! {

/// The RPC URLs that `values` list: each value holds one, or several between
/// commas. Blank entries are left out.
pub fn split_rpc_urls(values: &[String]) -> (urls: Vec<String>)
    ensures
        texts(urls@) == all_entries(texts(values@)),
{
    let mut urls: Vec<String> = Vec::new();
    let ghost all = texts(values@);
    let mut i: usize = 0;
    assert(texts(urls@) =~= all_entries(all.take(0)));
    while i < values.len()
        invariant
            all == texts(values@),
            i <= values@.len(),
            texts(urls@) == all_entries(all.take(i as int)),
        decreases values@.len() - i,
    {
        assert(all.take(i + 1).drop_last() =~= all.take(i as int));
        push_entries(&mut urls, values[i].as_str());
        i += 1;
    }
    assert(all.take(i as int) =~= all);
    urls
}

/// The RPC URLs to check statuses with: those that are configured, else those
/// that the environment lists, else the fallback.
pub open spec fn chosen_urls(
    configured: Seq<Seq<char>>,
    environment: Option<Seq<char>>,
    fallback: Seq<char>,
) -> Seq<Seq<char>> {
    if all_entries(configured).len() > 0 {
        all_entries(configured)
    } else if environment matches Some(text) && entries(text).len() > 0 {
        entries(environment->0)
    } else {
        seq![fallback]
    }
}

/// The RPC URLs to check statuses with. `env_urls` is what the environment
/// lists, if it does; a single entry stands for a list.
pub fn status_rpc_urls(
    configured_urls: &[String],
    env_urls: Option<String>,
    fallback_url: &str,
) -> (urls: Vec<String>)
    ensures
        texts(urls@) == chosen_urls(
            texts(configured_urls@),
            match env_urls {
                Some(text) => Some(text@),
                None => None,
            },
            fallback_url@,
        ),
        urls@.len() > 0,
{
    let mut urls = split_rpc_urls(configured_urls);
    assert(texts(urls@).len() == urls@.len());
    if urls.len() == 0 {
        match &env_urls {
            Some(text) => {
                assert(texts(urls@) =~= Seq::<Seq<char>>::empty());
                push_entries(&mut urls, text.as_str());
                assert(texts(urls@) =~= entries(text@));
                assert(texts(urls@).len() == urls@.len());
            },
            None => {},
        }
    }
    if urls.len() == 0 {
        urls.push(fallback_url.to_owned());
        assert(texts(urls@) =~= seq![fallback_url@]);
    }
    urls
}

/// A command-line number that must not be zero; `_name` is what it is called
/// there.
pub fn nonzero_arg(value: usize, _name: &'static str) -> (number: usize)
    requires
        value > 0,
    ensures
        number == value,
{
    value
}

/// The first list that is not empty decides: the configured one, then that of
/// the environment, and else the fallback alone.
pub proof fn law_first_list_decides(
    configured: Seq<Seq<char>>,
    environment: Option<Seq<char>>,
    fallback: Seq<char>,
)
    ensures
        chosen_urls(configured, environment, fallback).len() > 0,
        all_entries(configured).len() > 0 ==> chosen_urls(configured, environment, fallback)
            == all_entries(configured),
        all_entries(configured).len() == 0 ==> (environment matches Some(text) && entries(
            text,
        ).len() > 0 ==> chosen_urls(configured, environment, fallback) == entries(
            environment->0,
        )),
        all_entries(configured).len() == 0 && (environment matches Some(text) ==> entries(
            text,
        ).len() == 0) ==> chosen_urls(configured, environment, fallback) == seq![fallback],
{
}

} // verus!
