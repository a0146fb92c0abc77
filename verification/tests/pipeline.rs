use display_pipe::join::Join;
use display_pipe::join::JoinExt;
use display_pipe::replace::replace;
use display_pipe::simple::discard;
use display_pipe::simple::origin;
use display_pipe::simple::terminated;
use display_pipe::simple::Piped;
use display_pipe::simple::Preceded;
use display_pipe::slice::count_chars;
use display_pipe::slice::omitted;
use display_pipe::slice::omitted_with;
use display_pipe::slice::slice;
use display_pipe::split_at::split_at;
use display_pipe::DisplayPipe;
use display_pipe::UsePipe;

fn cs(s: &str) -> Vec<char> {
    s.chars().collect()
}

fn st(v: &[char]) -> String {
    v.iter().collect()
}

fn chunked(s: &str, n: usize) -> Vec<Vec<char>> {
    let all: Vec<char> = s.chars().collect();
    let mut r: Vec<Vec<char>> = Vec::new();
    let mut i = 0;
    while i < all.len() {
        let to = (i + n).min(all.len());
        r.push(all[i..to].to_vec());
        i = to;
    }
    r
}

#[test]
fn replace_matches_std_replace() {
    let up = UsePipe {
        source: vec![cs("hello world hello moon")],
        create_pipe: replace(cs("hello"), cs("hi"), None),
    };
    assert_eq!(st(&up.render()), "hello world hello moon".replace("hello", "hi"));
}

#[test]
fn replace_overlap_aaaa() {
    let up = UsePipe {
        source: vec![cs("aaaa")],
        create_pipe: replace(cs("aa"), cs("b"), None),
    };
    assert_eq!(st(&up.render()), "bb");
}

#[test]
fn replace_overlap_aaa() {
    let up = UsePipe {
        source: vec![cs("aaa")],
        create_pipe: replace(cs("aa"), cs("b"), None),
    };
    assert_eq!(st(&up.render()), "ba");
}

#[test]
fn replace_count_zero_is_passthrough() {
    let up = UsePipe {
        source: vec![cs("aaaa")],
        create_pipe: replace(cs("aa"), cs("b"), Some(0)),
    };
    assert_eq!(st(&up.render()), "aaaa");
}

#[test]
fn replace_count_bounded() {
    let one = UsePipe {
        source: vec![cs("aaaa")],
        create_pipe: replace(cs("aa"), cs("b"), Some(1)),
    };
    assert_eq!(st(&one.render()), "baa");
    let two = UsePipe {
        source: vec![cs("xaxaxa")],
        create_pipe: replace(cs("xa"), cs("y"), Some(2)),
    };
    assert_eq!(st(&two.render()), "yyxa");
}

#[test]
fn replace_flushes_partial_match_at_end() {
    let up = UsePipe {
        source: vec![cs("cab")],
        create_pipe: replace(cs("abc"), cs("z"), None),
    };
    assert_eq!(st(&up.render()), "cab");
}

#[test]
fn replace_across_chunk_boundaries() {
    for n in [1, 2, 3, 7, 100] {
        let up = UsePipe {
            source: chunked("the catalog has a cat in it, cat!", n),
            create_pipe: replace(cs("cat"), cs("dog"), None),
        };
        assert_eq!(st(&up.render()), "the dogalog has a dog in it, dog!");
    }
}

#[test]
fn chunk_invariance_of_a_composed_pipeline() {
    let text = "one two three four five six seven";
    let mut outputs: Vec<String> = Vec::new();
    for n in [1, 2, 5, 33, 100] {
        let up = UsePipe {
            source: chunked(text, n),
            create_pipe: Piped(replace(cs("e"), cs("E"), None), slice(4, Some(21))),
        };
        outputs.push(st(&up.render()));
    }
    for o in &outputs {
        assert_eq!(o, &outputs[0]);
    }
}

#[test]
fn slice_basic() {
    let up = UsePipe {
        source: vec![cs("hello")],
        create_pipe: slice(1, Some(3)),
    };
    assert_eq!(st(&up.render()), "el");
}

#[test]
fn slice_end_past_length() {
    let up = UsePipe {
        source: vec![cs("hello")],
        create_pipe: slice(2, Some(100)),
    };
    assert_eq!(st(&up.render()), "llo");
}

#[test]
fn slice_start_past_length() {
    let up = UsePipe {
        source: vec![cs("hello")],
        create_pipe: slice(10, Some(20)),
    };
    assert_eq!(st(&up.render()), "");
}

#[test]
fn slice_reversed_bounds_empty() {
    let up = UsePipe {
        source: vec![cs("hello")],
        create_pipe: slice(3, Some(1)),
    };
    assert_eq!(st(&up.render()), "");
}

#[test]
fn slice_unbounded_end() {
    let up = UsePipe {
        source: vec![cs("hello")],
        create_pipe: slice(2, None),
    };
    assert_eq!(st(&up.render()), "llo");
}

#[test]
fn slice_multibyte_is_char_based() {
    for n in [1, 2, 100] {
        let up = UsePipe {
            source: chunked("héllo ⚙ wörld", n),
            create_pipe: slice(2, Some(9)),
        };
        assert_eq!(st(&up.render()), "llo ⚙ w");
    }
}

#[test]
fn split_at_count_routes_before_and_after() {
    let keep_before = UsePipe {
        source: chunked("abcdef", 2),
        create_pipe: split_at(3, origin(), discard()),
    };
    assert_eq!(st(&keep_before.render()), "abc");
    let keep_after = UsePipe {
        source: chunked("abcdef", 2),
        create_pipe: split_at(3, discard(), origin()),
    };
    assert_eq!(st(&keep_after.render()), "def");
}

#[test]
fn split_at_char_fires_on_first_occurrence() {
    let up = UsePipe {
        source: vec![cs("key=value=more")],
        create_pipe: split_at('=', discard(), origin()),
    };
    assert_eq!(st(&up.render()), "=value=more");
}

#[test]
fn split_trigger_exactly_at_chunk_boundary() {
    let up = UsePipe {
        source: vec![cs("abc"), cs("def")],
        create_pipe: split_at(3, origin(), discard()),
    };
    assert_eq!(st(&up.render()), "abc");
    let up2 = UsePipe {
        source: vec![cs("abc"), cs("def")],
        create_pipe: split_at(3, discard(), origin()),
    };
    assert_eq!(st(&up2.render()), "def");
}

#[test]
fn empty_chunks_are_no_ops() {
    let up = UsePipe {
        source: vec![cs(""), cs("ca"), cs(""), cs("t"), cs("")],
        create_pipe: replace(cs("cat"), cs("dog"), None),
    };
    assert_eq!(st(&up.render()), "dog");
}

#[test]
fn split_with_loud_before_stage_depends_on_chunking() {
    // A "before" branch whose `end` emits text is outside the
    // chunk-invariance law: the splitter ends it at the trigger, and
    // where the trigger falls relative to chunk boundaries moves that
    // text.  Pin both behaviours.
    let whole = UsePipe {
        source: vec![cs("abc")],
        create_pipe: split_at(2, Piped(origin(), terminated(cs("X"))), origin()),
    };
    assert_eq!(st(&whole.render()), "Xabc");
    let cut = UsePipe {
        source: vec![cs("ab"), cs("c")],
        create_pipe: split_at(2, Piped(origin(), terminated(cs("X"))), origin()),
    };
    assert_eq!(st(&cut.render()), "abXc");
}

#[test]
fn omitted_long_truncates_with_summary() {
    let up = UsePipe {
        source: chunked("abcdef", 1),
        create_pipe: omitted(3, cs("...")),
    };
    assert_eq!(st(&up.render()), "abc...");
}

#[test]
fn omitted_short_still_appends_summary_at_end() {
    let up = UsePipe {
        source: vec![cs("ab")],
        create_pipe: omitted(3, cs("...")),
    };
    assert_eq!(st(&up.render()), "ab...");
}

#[test]
fn omitted_with_reports_omitted_count() {
    let up = UsePipe {
        source: chunked("abcdefgh", 3),
        create_pipe: omitted_with(3, cs("["), cs("]")),
    };
    assert_eq!(st(&up.render()), "abc[5]");
}

#[test]
fn omitted_with_zero_omitted_on_short_input() {
    let up = UsePipe {
        source: vec![cs("ab")],
        create_pipe: omitted_with(5, cs("<"), cs(">")),
    };
    assert_eq!(st(&up.render()), "ab<0>");
}

#[test]
fn terminated_appends_only_at_end() {
    let up = UsePipe {
        source: chunked("xy", 1),
        create_pipe: Piped(origin(), terminated(cs("!"))),
    };
    assert_eq!(st(&up.render()), "xy!");
}

#[test]
fn preceded_prepends_once() {
    let up = UsePipe {
        source: chunked("hi", 1),
        create_pipe: Preceded { text: cs(">> ") },
    };
    assert_eq!(st(&up.render()), ">> hi");
    let empty = UsePipe {
        source: Vec::new(),
        create_pipe: Preceded { text: cs(">> ") },
    };
    assert_eq!(st(&empty.render()), ">> ");
}

#[test]
fn piped_chains_replace_then_terminate() {
    let up = UsePipe {
        source: vec![cs("banana")],
        create_pipe: Piped(replace(cs("a"), cs("b"), None), terminated(cs("!"))),
    };
    assert_eq!(st(&up.render()), "bbnbnb!");
}

#[test]
fn count_chars_counts_and_passes_through() {
    let mut pipe = count_chars();
    let mut out: Vec<char> = Vec::new();
    pipe.handle(&mut out, &cs("ab"));
    pipe.handle(&mut out, &cs("cde"));
    pipe.end(&mut out);
    assert_eq!(pipe.count, 5);
    assert_eq!(st(&out), "abcde");
}

#[test]
fn compute_len_equals_rendered_byte_length() {
    let plain = UsePipe {
        source: vec![cs("héllo ⚙")],
        create_pipe: origin(),
    };
    let rendered: String = st(&plain.render());
    assert_eq!(plain.compute_len(), rendered.len());
    assert_eq!(plain.compute_len(), "héllo ⚙".len());

    let sliced = UsePipe {
        source: vec![cs("héllo")],
        create_pipe: slice(0, Some(3)),
    };
    let rendered2: String = st(&sliced.render());
    assert_eq!(rendered2, "hél");
    assert_eq!(sliced.compute_len(), rendered2.len());
}

#[test]
fn join_inserts_separator_between_items_only() {
    let join = vec![cs("a"), cs("b"), cs("c")].lazy_join(cs(", "));
    assert_eq!(st(&join.render()), "a, b, c");
}

#[test]
fn join_single_item_has_no_separator() {
    let join = Join {
        items: vec![cs("only")],
        sep: cs(", "),
    };
    assert_eq!(st(&join.render()), "only");
}

#[test]
fn join_no_items_is_empty() {
    let join = Join {
        items: Vec::new(),
        sep: cs(", "),
    };
    assert_eq!(st(&join.render()), "");
}

#[test]
fn end_to_end_scenario_golden() {
    let items: Vec<Vec<char>> = (0..50).map(|i| cs(&format!("`{}`", i))).collect();
    let join = Join {
        items: items.clone(),
        sep: cs(", "),
    };
    let joined = join.render();
    assert_eq!(joined.len(), 288);

    let golden = "`0`, `1`, `2`, `3`, `4`, `5`, `6`, `7`, `8`, `9`, `10`, `11`\
... (omitted 228 characters)";

    // whole joined text as one chunk
    let one_chunk = UsePipe {
        source: vec![joined],
        create_pipe: omitted_with(60, cs("... (omitted "), cs(" characters)")),
    };
    assert_eq!(st(&one_chunk.render()), golden);

    // streamed item by item, separators as their own chunks
    let mut streamed: Vec<Vec<char>> = Vec::new();
    for (i, item) in items.iter().enumerate() {
        if i > 0 {
            streamed.push(cs(", "));
        }
        streamed.push(item.clone());
    }
    let by_items = UsePipe {
        source: streamed,
        create_pipe: omitted_with(60, cs("... (omitted "), cs(" characters)")),
    };
    assert_eq!(st(&by_items.render()), golden);
}
