//! The managed block of a hosts file.
//!
//! A block is fenced by an opening and a closing guard line, both derived from
//! the monitored network and the target service. Rewriting a file drops the
//! block it finds and appends a fresh one; everything else is kept as it is.

use vstd::prelude::*;
use vstd::string::*;
use crate::text::{
    after_first, before_first, chars_of, find_first, first_at, lemma_first_at_is_first_index,
    lemma_first_index, occurs, occurs_at,
};

verus! {

/// Tag that every guard line carries.
pub const PRODUCT: &'static str = "app";

/// The views of a list of strings.
pub open spec fn texts(lines: Seq<String>) -> Seq<Seq<char>> {
    lines.map_values(|line: String| line@)
}

/// A guard line: `### <kind> <product> <network> <target>` and a line feed.
pub open spec fn guard(kind: Seq<char>, network: Seq<char>, target: Seq<char>) -> Seq<char> {
    "### "@ + kind + " "@ + PRODUCT@ + " "@ + network + " "@ + target + "\n"@
}

/// The line that opens the block of `network` and `target`.
pub open spec fn open_guard(network: Seq<char>, target: Seq<char>) -> Seq<char> {
    guard("open"@, network, target)
}

/// The line that closes the block of `network` and `target`.
pub open spec fn close_guard(network: Seq<char>, target: Seq<char>) -> Seq<char> {
    guard("close"@, network, target)
}

/// One line per name: the address, a tab, the name, a line feed.
pub open spec fn host_lines(host: Seq<char>, names: Seq<Seq<char>>) -> Seq<char>
    decreases names.len(),
{
    if names.len() == 0 {
        Seq::empty()
    } else {
        host_lines(host, names.drop_last()) + host + "\t"@ + names.last() + "\n"@
    }
}

/// `text` without its block: what precedes the first opening guard, followed
/// by what follows the first closing guard.
pub open spec fn strip_block(text: Seq<char>, open: Seq<char>, close: Seq<char>) -> Seq<char> {
    before_first(text, open) + after_first(text, close)
}

/// `text` with its block replaced by one that holds `body`, at the end.
pub open spec fn replace_block(
    text: Seq<char>,
    open: Seq<char>,
    body: Seq<char>,
    close: Seq<char>,
) -> Seq<char> {
    strip_block(text, open, close) + open + body + close
}

/// The hosts file `text` after its block for `network` and `target` has been
/// replaced by one that sends each of `names` to `host`.
pub open spec fn rewritten(
    text: Seq<char>,
    names: Seq<Seq<char>>,
    network: Seq<char>,
    target: Seq<char>,
    host: Seq<char>,
) -> Seq<char> {
    replace_block(
        text,
        open_guard(network, target),
        host_lines(host, names),
        close_guard(network, target),
    )
}

/// Removes the guarded block from `file`: keeps what stands before the first
/// `open_guard` and what stands after the first `close_guard`.
pub fn trim_host_from_guards(file: String, open_guard: &str, close_guard: &str) -> (content: String)
    ensures
        content@ == strip_block(file@, open_guard@, close_guard@),
{
    let text = chars_of(file.as_str());
    let open = chars_of(open_guard);
    let close = chars_of(close_guard);
    let mut content = String::new();
    match find_first(&text, &open) {
        Some(at) => {
            content.append(file.as_str().substring_char(0, at));
        },
        None => {
            content.append(file.as_str());
        },
    }
    match find_first(&text, &close) {
        Some(at) => {
            content.append(file.as_str().substring_char(at + close.len(), text.len()));
        },
        None => {},
    }
    content
}

fn guard_line(kind: &str, network: &str, target: &str) -> (line: String)
    ensures
        line@ == guard(kind@, network@, target@),
{
    let mut line = String::from_str("### ");
    line.append(kind);
    line.append(" ");
    line.append(PRODUCT);
    line.append(" ");
    line.append(network);
    line.append(" ");
    line.append(target);
    line.append("\n");
    line
}

/// Rewrites the hosts file `file` so that it ends in one block for `network`
/// and `target` that sends each of `lines` to `host`. A block that the file
/// already holds for the same pair is dropped.
pub fn update_host_file(
    file: String,
    lines: &[String],
    network: &str,
    target: &str,
    host: &str,
) -> (updated: String)
    ensures
        updated@ == rewritten(file@, texts(lines@), network@, target@, host@),
{
    let open = guard_line("open", network, target);
    let close = guard_line("close", network, target);
    let mut updated = trim_host_from_guards(file, open.as_str(), close.as_str());
    updated.append(open.as_str());
    let ghost kept = updated@;
    let mut i: usize = 0;
    while i < lines.len()
        invariant
            i <= lines.len(),
            updated@ == kept + host_lines(host@, texts(lines@).take(i as int)),
        decreases lines.len() - i,
    {
        proof {
            let names = texts(lines@);
            assert(names.take(i + 1).drop_last() == names.take(i as int));
            assert(names.take(i + 1).last() == lines@[i as int]@);
        }
        updated.append(host);
        updated.append("\t");
        updated.append(lines[i].as_str());
        updated.append("\n");
        i += 1;
    }
    assert(texts(lines@).take(lines.len() as int) == texts(lines@));
    updated.append(close.as_str());
    updated
}

/// `line` ends in a line feed and holds no other.
pub open spec fn single_line(line: Seq<char>) -> bool {
    &&& line.len() > 0
    &&& line.last() == '\n'
    &&& forall|i: int| 0 <= i < line.len() - 1 ==> line[i] != '\n'
}

/// `text` holds no line feed.
pub open spec fn no_line_feed(text: Seq<char>) -> bool {
    forall|i: int| 0 <= i < text.len() ==> text[i] != '\n'
}

/// `text` ends with `tail`.
pub open spec fn ends_with(text: Seq<char>, tail: Seq<char>) -> bool {
    tail.len() <= text.len() && text.subrange(text.len() - tail.len(), text.len() as int) == tail
}

/// A text that holds neither guard has no block to lose.
pub proof fn lemma_strip_without_block(text: Seq<char>, open: Seq<char>, close: Seq<char>)
    requires
        !occurs(text, open),
        !occurs(text, close),
    ensures
        strip_block(text, open, close) == text,
{
    assert(strip_block(text, open, close) =~= text);
}

/// Where the guards first occur around `body`, stripping the block leaves
/// what stands before and after it, untouched.
pub proof fn lemma_strip_block(
    prefix: Seq<char>,
    open: Seq<char>,
    body: Seq<char>,
    close: Seq<char>,
    suffix: Seq<char>,
)
    requires
        first_at(prefix + open + body + close + suffix, open, prefix.len() as int),
        first_at(
            prefix + open + body + close + suffix,
            close,
            (prefix.len() + open.len() + body.len()) as int,
        ),
    ensures
        strip_block(prefix + open + body + close + suffix, open, close) == prefix + suffix,
{
    let text = prefix + open + body + close + suffix;
    lemma_first_at_is_first_index(text, open, prefix.len() as int);
    lemma_first_at_is_first_index(text, close, (prefix.len() + open.len() + body.len()) as int);
    assert(before_first(text, open) =~= prefix);
    assert(after_first(text, close) =~= suffix);
}

/// A line stands first where it is put, if what precedes it does not hold it:
/// an earlier occurrence would have to end inside the line, on a line feed
/// that the line does not have.
pub proof fn lemma_line_first_after(prefix: Seq<char>, line: Seq<char>, rest: Seq<char>)
    requires
        single_line(line),
        !occurs(prefix, line),
    ensures
        first_at(prefix + line + rest, line, prefix.len() as int),
{
    let text = prefix + line + rest;
    assert(text.subrange(prefix.len() as int, (prefix.len() + line.len()) as int) =~= line);
    assert forall|earlier: int| 0 <= earlier < prefix.len() implies !occurs_at(
        text,
        line,
        earlier,
    ) by {
        if occurs_at(text, line, earlier) {
            let found = text.subrange(earlier, earlier + line.len());
            let end = earlier + line.len() - 1;
            if end < prefix.len() {
                assert(prefix.subrange(earlier, earlier + line.len()) =~= found);
                assert(occurs_at(prefix, line, earlier));
            } else {
                assert(found[line.len() - 1] == text[end]);
                assert(text[end] == line[end - prefix.len()]);
            }
        }
    }
}

/// A line that stands neither in `before` nor in `after` does not stand in
/// `before + middle + after` either, when `middle` is another line and
/// neither line ends with the other.
pub proof fn lemma_line_not_across(
    before: Seq<char>,
    middle: Seq<char>,
    after: Seq<char>,
    line: Seq<char>,
)
    requires
        single_line(line),
        single_line(middle),
        !occurs(before, line),
        !occurs(after, line),
        !ends_with(line, middle),
        !ends_with(middle, line),
    ensures
        !occurs(before + middle + after, line),
{
    let text = before + middle + after;
    assert forall|at: int| !occurs_at(text, line, at) by {
        if occurs_at(text, line, at) {
            let found = text.subrange(at, at + line.len());
            let end = at + line.len() - 1;
            let feed = before.len() + middle.len() - 1;
            assert(found[line.len() - 1] == text[end]);
            if end < before.len() {
                assert(before.subrange(at, at + line.len()) =~= found);
                assert(occurs_at(before, line, at));
            } else if end < feed {
                assert(text[end] == middle[end - before.len()]);
            } else if end == feed {
                if at < before.len() {
                    assert(line.subrange(line.len() - middle.len(), line.len() as int) =~= middle)
                        by {
                        assert forall|i: int| 0 <= i < middle.len() implies line[line.len()
                            - middle.len() + i] == middle[i] by {
                            assert(found[line.len() - middle.len() + i] == text[before.len() + i]);
                        }
                    }
                } else {
                    assert(middle.subrange(middle.len() - line.len(), middle.len() as int) =~= line)
                        by {
                        assert forall|i: int| 0 <= i < line.len() implies middle[middle.len()
                            - line.len() + i] == line[i] by {
                            assert(found[i] == text[at + i]);
                        }
                    }
                }
            } else if at <= feed {
                assert(found[feed - at] == text[feed]);
                assert(text[feed] == middle[middle.len() - 1]);
            } else {
                let start = before.len() + middle.len();
                assert(after.subrange(at - start, at - start + line.len()) =~= found);
                assert(occurs_at(after, line, at - start));
            }
        }
    }
}

/// The guards of a network and a target whose names hold no line feed are
/// single lines, and neither ends with the other.
pub proof fn lemma_guard_shapes(network: Seq<char>, target: Seq<char>)
    requires
        no_line_feed(network),
        no_line_feed(target),
    ensures
        single_line(open_guard(network, target)),
        single_line(close_guard(network, target)),
        !ends_with(open_guard(network, target), close_guard(network, target)),
        !ends_with(close_guard(network, target), open_guard(network, target)),
{
    reveal_strlit("### ");
    reveal_strlit("open");
    reveal_strlit("close");
    reveal_strlit(" ");
    reveal_strlit("app");
    reveal_strlit("\n");
    let open = open_guard(network, target);
    let close = close_guard(network, target);
    let open_head = "### "@ + "open"@ + " "@ + PRODUCT@ + " "@ + network + " "@ + target;
    let close_head = "### "@ + "close"@ + " "@ + PRODUCT@ + " "@ + network + " "@ + target;
    assert(no_line_feed(open_head));
    assert(no_line_feed(close_head));
    assert(open == open_head + "\n"@);
    assert(close == close_head + "\n"@);
    assert(open.len() + 1 == close.len());
    assert(open[2] == '#');
    assert(close[3] == ' ');
    if ends_with(close, open) {
        assert(close.subrange(1, close.len() as int)[2] == open[2]);
    }
}

/// The block that stands between `prefix` and `suffix` is the one that a
/// rewrite finds: each guard first occurs where the block has it.
pub open spec fn block_is_found(
    prefix: Seq<char>,
    body: Seq<char>,
    suffix: Seq<char>,
    network: Seq<char>,
    target: Seq<char>,
) -> bool {
    let open = open_guard(network, target);
    let close = close_guard(network, target);
    let text = prefix + open + body + close + suffix;
    &&& first_at(text, open, prefix.len() as int)
    &&& first_at(text, close, (prefix.len() + open.len() + body.len()) as int)
}

/// When the names of the network and of the target hold no line feed, the
/// block between `prefix` and `suffix` is found as soon as `prefix` holds
/// neither guard and the block holds no closing guard of its own, whatever
/// `suffix` is.
pub proof fn lemma_block_is_found(
    prefix: Seq<char>,
    body: Seq<char>,
    suffix: Seq<char>,
    network: Seq<char>,
    target: Seq<char>,
)
    requires
        no_line_feed(network),
        no_line_feed(target),
        !occurs(prefix, open_guard(network, target)),
        !occurs(prefix, close_guard(network, target)),
        !occurs(body, close_guard(network, target)),
    ensures
        block_is_found(prefix, body, suffix, network, target),
{
    let open = open_guard(network, target);
    let close = close_guard(network, target);
    let text = prefix + open + body + close + suffix;
    lemma_guard_shapes(network, target);
    lemma_line_first_after(prefix, open, body + close + suffix);
    assert(prefix + open + (body + close + suffix) =~= text);
    lemma_line_not_across(prefix, open, body, close);
    lemma_line_first_after(prefix + open + body, close, suffix);
}

/// Isolation. Rewriting a file whose block stands between `prefix` and
/// `suffix` gives `prefix`, then `suffix`, then the new block: what surrounds
/// the old block is kept character for character.
pub proof fn lemma_rewrite_isolation(
    prefix: Seq<char>,
    body: Seq<char>,
    suffix: Seq<char>,
    names: Seq<Seq<char>>,
    network: Seq<char>,
    target: Seq<char>,
    host: Seq<char>,
)
    requires
        block_is_found(prefix, body, suffix, network, target),
    ensures
        rewritten(
            prefix + open_guard(network, target) + body + close_guard(network, target) + suffix,
            names,
            network,
            target,
            host,
        ) == prefix + suffix + open_guard(network, target) + host_lines(host, names) + close_guard(
            network,
            target,
        ),
{
    lemma_strip_block(
        prefix,
        open_guard(network, target),
        body,
        close_guard(network, target),
        suffix,
    );
}

/// A file that holds neither guard is kept whole, and the block is added at
/// its end.
pub proof fn lemma_rewrite_appends(
    text: Seq<char>,
    names: Seq<Seq<char>>,
    network: Seq<char>,
    target: Seq<char>,
    host: Seq<char>,
)
    requires
        !occurs(text, open_guard(network, target)),
        !occurs(text, close_guard(network, target)),
    ensures
        rewritten(text, names, network, target, host) == text + open_guard(network, target)
            + host_lines(host, names) + close_guard(network, target),
{
    lemma_strip_without_block(text, open_guard(network, target), close_guard(network, target));
}

/// What a rewrite keeps of `text`.
pub open spec fn kept(text: Seq<char>, network: Seq<char>, target: Seq<char>) -> Seq<char> {
    strip_block(text, open_guard(network, target), close_guard(network, target))
}

/// A rewritten file is what was kept, followed by the block.
proof fn lemma_rewritten_shape(
    text: Seq<char>,
    names: Seq<Seq<char>>,
    network: Seq<char>,
    target: Seq<char>,
    host: Seq<char>,
)
    ensures
        rewritten(text, names, network, target, host) == kept(text, network, target) + open_guard(
            network,
            target,
        ) + host_lines(host, names) + close_guard(network, target) + Seq::<char>::empty(),
{
    assert(rewritten(text, names, network, target, host) =~= kept(text, network, target)
        + open_guard(network, target) + host_lines(host, names) + close_guard(network, target)
        + Seq::<char>::empty());
}

/// The last rewrite wins. Where the block that a rewrite appends is the one
/// that the next rewrite finds, rewriting the rewritten file gives what
/// rewriting the file itself would have given.
pub proof fn lemma_rewrite_again(
    text: Seq<char>,
    names: Seq<Seq<char>>,
    host: Seq<char>,
    later_names: Seq<Seq<char>>,
    later_host: Seq<char>,
    network: Seq<char>,
    target: Seq<char>,
)
    requires
        block_is_found(
            kept(text, network, target),
            host_lines(host, names),
            Seq::empty(),
            network,
            target,
        ),
    ensures
        rewritten(
            rewritten(text, names, network, target, host),
            later_names,
            network,
            target,
            later_host,
        ) == rewritten(text, later_names, network, target, later_host),
{
    lemma_rewritten_shape(text, names, network, target, host);
    lemma_rewrite_isolation(
        kept(text, network, target),
        host_lines(host, names),
        Seq::empty(),
        later_names,
        network,
        target,
        later_host,
    );
    assert(kept(text, network, target) + Seq::<char>::empty() =~= kept(text, network, target));
}

/// Idempotence. Where the block that a rewrite appends is the one that the
/// next rewrite finds, rewriting twice with the same names and address is
/// rewriting once.
pub proof fn lemma_rewrite_idempotent(
    text: Seq<char>,
    names: Seq<Seq<char>>,
    network: Seq<char>,
    target: Seq<char>,
    host: Seq<char>,
)
    requires
        block_is_found(
            kept(text, network, target),
            host_lines(host, names),
            Seq::empty(),
            network,
            target,
        ),
    ensures
        rewritten(rewritten(text, names, network, target, host), names, network, target, host)
            == rewritten(text, names, network, target, host),
{
    lemma_rewrite_again(text, names, host, names, host, network, target);
}

/// Idempotence for guards that are kept apart from the content: when the
/// names of the network and of the target hold no line feed, when what a
/// rewrite keeps of the file holds neither guard and when the lines of the
/// block hold no closing guard, rewriting twice is rewriting once.
pub proof fn lemma_rewrite_idempotent_on_reserved_guards(
    text: Seq<char>,
    names: Seq<Seq<char>>,
    network: Seq<char>,
    target: Seq<char>,
    host: Seq<char>,
)
    requires
        no_line_feed(network),
        no_line_feed(target),
        !occurs(kept(text, network, target), open_guard(network, target)),
        !occurs(kept(text, network, target), close_guard(network, target)),
        !occurs(host_lines(host, names), close_guard(network, target)),
    ensures
        rewritten(rewritten(text, names, network, target, host), names, network, target, host)
            == rewritten(text, names, network, target, host),
{
    lemma_block_is_found(
        kept(text, network, target),
        host_lines(host, names),
        Seq::empty(),
        network,
        target,
    );
    lemma_rewrite_idempotent(text, names, network, target, host);
}

} // verus!
