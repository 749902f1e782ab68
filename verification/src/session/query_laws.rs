//! What queries over the files of a session answer.
use crate::ir::path_map::Entry;
use crate::session::outline::ClassView;
use crate::session::queries::{
    components_of, matching, occurs_in, symbols_of, warm_count, workspace_symbols, SymbolView,
};
use crate::session::store::DocumentView;
use crate::text::join_text;
use vstd::prelude::*;

verus! {

/// Whether the name of a symbol holds a text.
pub open spec fn holds_text(text: Seq<char>) -> spec_fn(SymbolView) -> bool {
    |s: SymbolView| occurs_in(text, s.name)
}

/// A search among symbols finds those whose name holds the text, in their order, and no
/// others.
pub proof fn law_searches_find_what_holds_the_text(symbols: Seq<SymbolView>, text: Seq<char>)
    ensures
        matching(symbols, text) == symbols.filter(holds_text(text)),
    decreases symbols.len(),
{
    reveal(Seq::filter);
    if symbols.len() > 0 {
        law_searches_find_what_holds_the_text(symbols.drop_last(), text);
    } else {
        assert(matching(symbols, text) =~= symbols.filter(holds_text(text)));
    }
}

/// A name holds every text that it starts with, and itself.
pub proof fn law_names_hold_their_beginnings(name: Seq<char>, n: int)
    requires
        0 <= n <= name.len(),
    ensures
        occurs_in(name.take(n), name),
{
    assert(name.subrange(0, 0int + name.take(n).len()) =~= name.take(n));
}

/// Whether a symbol stands for a class.
pub open spec fn stands_for(symbol: SymbolView, class: ClassView) -> bool {
    symbol.name == class.name && symbol.path == class.path
}

/// Whether a symbol stands for a class of one of the first `n` documents.
pub open spec fn is_symbol_of(docs: Seq<Entry<DocumentView>>, n: int, symbol: SymbolView) -> bool {
    exists|i: int, k: int|
        0 <= i < n && 0 <= k < docs[i].1.outline.len() && stands_for(
            symbol,
            #[trigger] docs[i].1.outline[k],
        )
}

/// The symbols of the documents of a session are those of all their classes, and no
/// others.
pub proof fn law_every_class_has_its_symbol(
    docs: Seq<Entry<DocumentView>>,
    n: int,
    symbol: SymbolView,
)
    requires
        0 <= n <= docs.len(),
    ensures
        workspace_symbols(docs, n).contains(symbol) <==> is_symbol_of(docs, n, symbol),
    decreases n,
{
    if n > 0 {
        law_every_class_has_its_symbol(docs, n - 1, symbol);
        let front = workspace_symbols(docs, n - 1);
        let outline = docs[n - 1].1.outline;
        let own = symbols_of(outline);
        let all = workspace_symbols(docs, n);
        assert(all == front + own);
        if all.contains(symbol) {
            let j = choose|j: int| 0 <= j < all.len() && all[j] == symbol;
            if j < front.len() {
                assert(front[j] == symbol);
                assert(front.contains(symbol));
                let (i, k) = choose|i: int, k: int|
                    0 <= i < n - 1 && 0 <= k < docs[i].1.outline.len() && stands_for(
                        symbol,
                        #[trigger] docs[i].1.outline[k],
                    );
                assert(stands_for(symbol, docs[i].1.outline[k]));
            } else {
                assert(stands_for(symbol, docs[n - 1].1.outline[j - front.len()]));
            }
        }
        if is_symbol_of(docs, n, symbol) {
            let (i, k) = choose|i: int, k: int|
                0 <= i < n && 0 <= k < docs[i].1.outline.len() && stands_for(
                    symbol,
                    #[trigger] docs[i].1.outline[k],
                );
            if i == n - 1 {
                assert(own[k] == symbol);
                assert(all[front.len() + k] == symbol);
            } else {
                assert(stands_for(symbol, docs[i].1.outline[k]));
                assert(is_symbol_of(docs, n - 1, symbol));
                let j = choose|j: int| 0 <= j < front.len() && front[j] == symbol;
                assert(all[j] == symbol);
            }
        }
    }
}

/// Whether the answer for a document is at hand: it was made from the outline that the
/// document has.
pub open spec fn is_at_hand(
    cached: Seq<Entry<Seq<ClassView>>>,
) -> spec_fn(Entry<DocumentView>) -> bool {
    |d: Entry<DocumentView>| cached.contains((d.0, d.1.outline))
}

/// Answers at hand are counted document by document.
pub proof fn law_answers_at_hand_are_counted(
    cached: Seq<Entry<Seq<ClassView>>>,
    docs: Seq<Entry<DocumentView>>,
    n: int,
)
    requires
        0 <= n <= docs.len(),
    ensures
        warm_count(cached, docs, n) == docs.take(n).filter(is_at_hand(cached)).len(),
    decreases n,
{
    reveal(Seq::filter);
    if n > 0 {
        law_answers_at_hand_are_counted(cached, docs, n - 1);
        assert(docs.take(n).drop_last() =~= docs.take(n - 1));
        assert(docs.take(n).last() == docs[n - 1]);
    }
}

/// A class offers its own components: those of the first class with its dotted path, and
/// none where no class has it.
pub proof fn law_classes_offer_their_components(outline: Seq<ClassView>, class: Seq<char>, k: int)
    requires
        0 <= k <= outline.len(),
        forall|i: int|
            0 <= i < k ==> join_text((#[trigger] outline[i]).path, "."@) != class,
        k < outline.len() ==> join_text(outline[k].path, "."@) == class,
    ensures
        k < outline.len() ==> components_of(outline, class) == outline[k].components,
        k == outline.len() ==> components_of(outline, class).len() == 0,
    decreases outline.len(),
{
    if k > 0 {
        assert(join_text(outline[0].path, "."@) != class);
        let rest = outline.skip(1);
        assert forall|i: int| 0 <= i < k - 1 implies join_text(
            (#[trigger] rest[i]).path,
            "."@,
        ) != class by {
            assert(rest[i] == outline[i + 1]);
        }
        law_classes_offer_their_components(rest, class, k - 1);
    }
}

} // verus!
