//! Reading effects and taint roles out of decorator names, and the standard-library effect table.
use vstd::prelude::*;
use crate::effect_row::{EffectKind, EffectRow, SpecEffectKind, effect_kind_from_label, spec_kind_from_label};
use crate::effect_summary::{opt_view, SummaryEffectFact};
use crate::taint::{TaintFact, TaintFactKind, TaintFacts, SpecTaintFact};
use crate::text::{
    owned, str_eq, str_split_once, str_last_segment, split_once, last_segment, contains_sub,
    str_contains, ends_with, str_ends_with, join2,
};

verus! {

/// The short name under which a decorator is matched: the whole decorator when it carries an
/// `effect:` label, else the part after its last `.`.
pub open spec fn spec_decorator_short_name(decorator: Seq<char>) -> Seq<char> {
    if contains_sub(decorator, "effect:"@) {
        decorator
    } else {
        last_segment(decorator, '.')
    }
}

/// The short name under which a decorator is matched.
pub fn decorator_short_name(decorator: &str) -> (res: Option<String>)
    ensures
        res matches Some(s) && s@ == spec_decorator_short_name(decorator@),
{
    if str_contains(decorator, "effect:") {
        Some(owned(decorator))
    } else {
        Some(str_last_segment(decorator, '.'))
    }
}

/// The effect label of a decorator written `effect:<label>` (the target may be qualified).
pub open spec fn spec_effect_label_from_decorator(decorator: Seq<char>) -> Option<Seq<char>> {
    match split_once(decorator, ':') {
        Some((target, label)) => if last_segment(target, '.') == "effect"@ && label.len() > 0 {
            Some(label)
        } else {
            None
        },
        None => None,
    }
}

/// The effect label of a decorator written `effect:<label>`.
pub fn effect_label_from_decorator(decorator: &str) -> (res: Option<String>)
    ensures
        opt_view(res) == spec_effect_label_from_decorator(decorator@),
{
    let (target, label) = match str_split_once(decorator, ':') {
        Some(parts) => parts,
        None => {
            return None;
        },
    };
    let last = str_last_segment(&target, '.');
    if str_eq(&last, "effect") && label.as_str().unicode_len() > 0 {
        Some(label)
    } else {
        None
    }
}

/// The taint role a decorator name gives: `source`, `sink` or `sanitizer` (also
/// `effect_taint_sanitize`), optionally followed by `:<context>`.
pub open spec fn spec_taint_fact_from_decorator_name(decorator: Seq<char>) -> Option<SpecTaintFact> {
    let (target, context) = match split_once(decorator, ':') {
        Some((t, c)) => (
            t,
            if c.len() > 0 {
                Some(c)
            } else {
                None
            },
        ),
        None => (decorator, None),
    };
    let name = last_segment(target, '.');
    if name == "source"@ {
        Some((TaintFactKind::Source, context))
    } else if name == "sink"@ {
        Some((TaintFactKind::Sink, context))
    } else if name == "sanitizer"@ || name == "effect_taint_sanitize"@ {
        Some((TaintFactKind::Sanitizer, context))
    } else {
        None
    }
}

/// The plain-value view of an optional taint fact.
pub open spec fn opt_fact(o: Option<TaintFact>) -> Option<SpecTaintFact> {
    match o {
        Some(f) => Some(f@),
        None => None,
    }
}

/// The taint role a decorator name gives.
pub fn taint_fact_from_decorator_name(decorator: &str) -> (res: Option<TaintFact>)
    ensures
        opt_fact(res) == spec_taint_fact_from_decorator_name(decorator@),
{
    let (target, context) = match str_split_once(decorator, ':') {
        Some((t, c)) => {
            let ctx = if c.as_str().unicode_len() > 0 {
                Some(c)
            } else {
                None
            };
            (t, ctx)
        },
        None => (owned(decorator), None),
    };
    let name = str_last_segment(&target, '.');
    if str_eq(&name, "source") {
        Some(TaintFact::source(context))
    } else if str_eq(&name, "sink") {
        Some(TaintFact::sink(context))
    } else if str_eq(&name, "sanitizer") || str_eq(&name, "effect_taint_sanitize") {
        Some(TaintFact::sanitizer(context))
    } else {
        None
    }
}

/// The taint role an effect label stands for.
pub open spec fn spec_taint_fact_from_effect_label(label: Seq<char>) -> Option<SpecTaintFact> {
    if label == "taint.source"@ {
        Some((TaintFactKind::Source, None))
    } else if label == "taint.sink"@ {
        Some((TaintFactKind::Sink, None))
    } else if label == "taint.sanitize"@ {
        Some((TaintFactKind::Sanitizer, None))
    } else {
        None
    }
}

/// The taint role an effect label stands for.
pub fn taint_fact_from_effect_label(label: &str) -> (res: Option<TaintFact>)
    ensures
        opt_fact(res) == spec_taint_fact_from_effect_label(label@),
{
    if str_eq(label, "taint.source") {
        Some(TaintFact::source(None))
    } else if str_eq(label, "taint.sink") {
        Some(TaintFact::sink(None))
    } else if str_eq(label, "taint.sanitize") {
        Some(TaintFact::sanitizer(None))
    } else {
        None
    }
}

/// An optional fact as a set of at most one fact.
pub open spec fn fact_set(o: Option<SpecTaintFact>) -> Set<SpecTaintFact> {
    match o {
        Some(f) => set![f],
        None => Set::empty(),
    }
}

/// The taint facts a decorator carries: its name's role, and the role of its effect label.
pub open spec fn spec_taint_facts_from_decorator(decorator: Seq<char>) -> Set<SpecTaintFact> {
    let short = spec_decorator_short_name(decorator);
    fact_set(spec_taint_fact_from_decorator_name(short)).union(
        match spec_effect_label_from_decorator(short) {
            Some(label) => fact_set(spec_taint_fact_from_effect_label(label)),
            None => Set::empty(),
        },
    )
}

/// The taint facts a decorator carries.
pub fn taint_decorator_facts_from_decorator(decorator: &str) -> (res: TaintFacts)
    ensures
        res@ == spec_taint_facts_from_decorator(decorator@),
{
    let short = match decorator_short_name(decorator) {
        Some(s) => s,
        None => owned(decorator),
    };
    let mut facts = TaintFacts::new();
    let ghost first = fact_set(spec_taint_fact_from_decorator_name(short@));
    if let Some(fact) = taint_fact_from_decorator_name(&short) {
        facts.insert(fact);
    }
    assert(facts@ =~= first);
    let ghost second = match spec_effect_label_from_decorator(short@) {
        Some(label) => fact_set(spec_taint_fact_from_effect_label(label)),
        None => Set::<SpecTaintFact>::empty(),
    };
    if let Some(label) = effect_label_from_decorator(&short) {
        if let Some(fact) = taint_fact_from_effect_label(&label) {
            facts.insert(fact);
        }
    }
    assert(facts@ =~= first.union(second));
    facts
}

/// The taint facts carried by a stored summary: those of its decorator sources, or, when
/// there are none, those of its effect labels.
pub open spec fn spec_taint_facts_from_summary(
    sources: Seq<Seq<char>>,
    effects: Seq<Seq<char>>,
) -> Set<SpecTaintFact> {
    let from_sources = Set::new(
        |f: SpecTaintFact|
            exists|i: int|
                0 <= i < sources.len() && #[trigger] spec_taint_facts_from_decorator(
                    sources[i],
                ).contains(f),
    );
    if from_sources == Set::<SpecTaintFact>::empty() {
        Set::new(
            |f: SpecTaintFact|
                exists|i: int|
                    0 <= i < effects.len() && spec_taint_fact_from_effect_label(effects[i]) == Some(
                        f,
                    ),
        )
    } else {
        from_sources
    }
}

/// The taint facts carried by a stored summary.
pub fn taint_decorator_facts_from_effect_summary(fact: &SummaryEffectFact) -> (res: TaintFacts)
    ensures
        res@ == spec_taint_facts_from_summary(
            fact.sources@.map_values(|s: String| s@),
            fact.effects@.map_values(|s: String| s@),
        ),
{
    let ghost sources = fact.sources@.map_values(|s: String| s@);
    let ghost effects = fact.effects@.map_values(|s: String| s@);
    let mut facts = TaintFacts::new();
    let n = fact.sources.len();
    let mut i: usize = 0;
    while i < n
        invariant
            n == fact.sources@.len(),
            i <= n,
            sources == fact.sources@.map_values(|s: String| s@),
            facts@ == Set::new(
                |f: SpecTaintFact|
                    exists|j: int|
                        0 <= j < i && #[trigger] spec_taint_facts_from_decorator(sources[j]).contains(
                            f,
                        ),
            ),
        decreases n - i,
    {
        let ghost before = facts@;
        let more = taint_decorator_facts_from_decorator(&fact.sources[i]);
        facts.extend(&more);
        assert(facts@ =~= Set::new(
            |f: SpecTaintFact|
                exists|j: int|
                    0 <= j < i + 1 && #[trigger] spec_taint_facts_from_decorator(sources[j]).contains(f),
        )) by {
            assert forall|f: SpecTaintFact| facts@.contains(f) implies exists|j: int|
                0 <= j < i + 1 && #[trigger] spec_taint_facts_from_decorator(sources[j]).contains(f) by {
                if before.contains(f) {
                    let j = choose|j: int|
                        0 <= j < i && #[trigger] spec_taint_facts_from_decorator(sources[j]).contains(
                            f,
                        );
                    assert(0 <= j < i + 1);
                } else {
                    assert(spec_taint_facts_from_decorator(sources[i as int]).contains(f));
                }
            }
            assert forall|f: SpecTaintFact|
                (exists|j: int|
                    0 <= j < i + 1 && #[trigger] spec_taint_facts_from_decorator(sources[j]).contains(
                        f,
                    )) implies facts@.contains(f) by {
                let j = choose|j: int|
                    0 <= j < i + 1 && #[trigger] spec_taint_facts_from_decorator(sources[j]).contains(f);
                if j < i {
                    assert(before.contains(f));
                }
            }
        }
        i = i + 1;
    }
    if !facts.is_empty() {
        return facts;
    }
    let m = fact.effects.len();
    let mut k: usize = 0;
    while k < m
        invariant
            m == fact.effects@.len(),
            k <= m,
            effects == fact.effects@.map_values(|s: String| s@),
            facts@ == Set::new(
                |f: SpecTaintFact|
                    exists|j: int|
                        0 <= j < k && spec_taint_fact_from_effect_label(effects[j]) == Some(f),
            ),
        decreases m - k,
    {
        let ghost before = facts@;
        if let Some(f) = taint_fact_from_effect_label(&fact.effects[k]) {
            facts.insert(f);
        }
        assert(facts@ =~= Set::new(
            |f: SpecTaintFact|
                exists|j: int| 0 <= j < k + 1 && spec_taint_fact_from_effect_label(effects[j]) == Some(f),
        )) by {
            assert forall|f: SpecTaintFact| facts@.contains(f) implies exists|j: int|
                0 <= j < k + 1 && spec_taint_fact_from_effect_label(effects[j]) == Some(f) by {
                if before.contains(f) {
                    let j = choose|j: int|
                        0 <= j < k && spec_taint_fact_from_effect_label(effects[j]) == Some(f);
                    assert(0 <= j < k + 1);
                } else {
                    assert(spec_taint_fact_from_effect_label(effects[k as int]) == Some(f));
                }
            }
            assert forall|f: SpecTaintFact|
                (exists|j: int|
                    0 <= j < k + 1 && spec_taint_fact_from_effect_label(effects[j]) == Some(
                        f,
                    )) implies facts@.contains(f) by {
                let j = choose|j: int|
                    0 <= j < k + 1 && spec_taint_fact_from_effect_label(effects[j]) == Some(f);
                if j < k {
                    assert(before.contains(f));
                }
            }
        }
        k = k + 1;
    }
    facts
}

/// Whether a short decorator name marks a resource whose lifecycle is an effect.
pub open spec fn spec_lifecycle_effect_decorator(short: Seq<char>) -> bool {
    short == "must_use"@ || short == "must_call"@ || short == "must_close"@ || short
        == "must_dispose"@ || short == "must_await"@ || short == "must_consume"@
}

/// Whether a short decorator name marks a resource whose lifecycle is an effect.
pub fn lifecycle_effect_decorator(short: &str) -> (res: bool)
    ensures
        res == spec_lifecycle_effect_decorator(short@),
{
    str_eq(short, "must_use") || str_eq(short, "must_call") || str_eq(short, "must_close") || str_eq(
        short,
        "must_dispose",
    ) || str_eq(short, "must_await") || str_eq(short, "must_consume")
}

/// The effect a short decorator name declares: an `effect:<label>` label, a taint role, or one
/// of the named effect decorators.
pub open spec fn spec_effect_kind_from_decorator(short: Seq<char>) -> Option<SpecEffectKind> {
    if let Some(label) = spec_effect_label_from_decorator(short) {
        Some(spec_kind_from_label(label))
    } else if let Some(fact) = spec_taint_fact_from_decorator_name(short) {
        Some(
            match fact.0 {
                TaintFactKind::Source => SpecEffectKind::Declared("taint.source"@),
                TaintFactKind::Sink => SpecEffectKind::Declared("taint.sink"@),
                TaintFactKind::Sanitizer => SpecEffectKind::TaintSanitize,
            },
        )
    } else if short == "effect"@ || short == "effectful"@ {
        Some(SpecEffectKind::Declared("declared"@))
    } else if short == "effect_unsafe"@ {
        Some(SpecEffectKind::Unsafe)
    } else if short == "effect_io_fs"@ {
        Some(SpecEffectKind::IoFs)
    } else if short == "effect_io_net"@ {
        Some(SpecEffectKind::IoNet)
    } else if short == "effect_io_proc"@ {
        Some(SpecEffectKind::IoProc)
    } else if short == "effect_time"@ {
        Some(SpecEffectKind::Time)
    } else if short == "effect_random"@ {
        Some(SpecEffectKind::Random)
    } else if short == "effect_runtime_validation"@ || short == "trusted_validator"@ {
        Some(SpecEffectKind::RuntimeValidation)
    } else {
        None
    }
}

/// The plain-value view of an optional effect kind.
pub open spec fn opt_kind(o: Option<EffectKind>) -> Option<SpecEffectKind> {
    match o {
        Some(k) => Some(k@),
        None => None,
    }
}

/// The effect a short decorator name declares.
pub fn effect_kind_from_decorator(short: &str) -> (res: Option<EffectKind>)
    ensures
        opt_kind(res) == spec_effect_kind_from_decorator(short@),
{
    if let Some(label) = effect_label_from_decorator(short) {
        return Some(effect_kind_from_label(&label));
    }
    if let Some(fact) = taint_fact_from_decorator_name(short) {
        return match fact.kind {
            TaintFactKind::Source => Some(EffectKind::Declared(owned("taint.source"))),
            TaintFactKind::Sink => Some(EffectKind::Declared(owned("taint.sink"))),
            TaintFactKind::Sanitizer => Some(EffectKind::TaintSanitize),
        };
    }
    if str_eq(short, "effect") || str_eq(short, "effectful") {
        Some(EffectKind::Declared(owned("declared")))
    } else if str_eq(short, "effect_unsafe") {
        Some(EffectKind::Unsafe)
    } else if str_eq(short, "effect_io_fs") {
        Some(EffectKind::IoFs)
    } else if str_eq(short, "effect_io_net") {
        Some(EffectKind::IoNet)
    } else if str_eq(short, "effect_io_proc") {
        Some(EffectKind::IoProc)
    } else if str_eq(short, "effect_time") {
        Some(EffectKind::Time)
    } else if str_eq(short, "effect_random") {
        Some(EffectKind::Random)
    } else if str_eq(short, "effect_runtime_validation") || str_eq(short, "trusted_validator") {
        Some(EffectKind::RuntimeValidation)
    } else {
        None
    }
}

/// Whether a decorator only records semantic metadata (effects, purity, taint roles,
/// validators, lifecycles) and leaves the callable's type unchanged.
pub open spec fn spec_decorator_is_semantic_metadata_only(decorator: Seq<char>) -> bool {
    let target = match split_once(decorator, ':') {
        Some((t, _)) => t,
        None => decorator,
    };
    let short = last_segment(target, '.');
    ||| short == "effect"@
    ||| short == "effectful"@
    ||| short == "effect_pure"@
    ||| short == "pure"@
    ||| short == "effect_unsafe"@
    ||| short == "effect_io_fs"@
    ||| short == "effect_io_net"@
    ||| short == "effect_io_proc"@
    ||| short == "effect_time"@
    ||| short == "effect_random"@
    ||| short == "effect_runtime_validation"@
    ||| short == "effect_taint_sanitize"@
    ||| short == "source"@
    ||| short == "sink"@
    ||| short == "sanitizer"@
    ||| short == "trusted_validator"@
    ||| short == "validator"@
    ||| spec_lifecycle_effect_decorator(short)
}

/// Whether a decorator only records semantic metadata.
pub fn decorator_is_semantic_metadata_only(decorator: &str) -> (res: bool)
    ensures
        res == spec_decorator_is_semantic_metadata_only(decorator@),
{
    let target = match str_split_once(decorator, ':') {
        Some((t, _)) => t,
        None => owned(decorator),
    };
    let short = str_last_segment(&target, '.');
    let s = short.as_str();
    str_eq(s, "effect") || str_eq(s, "effectful") || str_eq(s, "effect_pure") || str_eq(s, "pure")
        || str_eq(s, "effect_unsafe") || str_eq(s, "effect_io_fs") || str_eq(s, "effect_io_net")
        || str_eq(s, "effect_io_proc") || str_eq(s, "effect_time") || str_eq(s, "effect_random")
        || str_eq(s, "effect_runtime_validation") || str_eq(s, "effect_taint_sanitize") || str_eq(
        s,
        "source",
    ) || str_eq(s, "sink") || str_eq(s, "sanitizer") || str_eq(s, "trusted_validator") || str_eq(
        s,
        "validator",
    ) || lifecycle_effect_decorator(s)
}

/// The standard-library functions of a module that have effects.
pub open spec fn spec_stdlib_symbols(module: Seq<char>) -> Seq<Seq<char>> {
    if module == "time"@ {
        seq!["monotonic"@, "perf_counter"@, "process_time"@, "sleep"@, "time"@]
    } else if module == "random"@ {
        seq![
            "choice"@,
            "choices"@,
            "randint"@,
            "random"@,
            "randrange"@,
            "seed"@,
            "shuffle"@,
        ]
    } else if module == "secrets"@ {
        seq!["choice"@, "randbelow"@, "token_bytes"@, "token_hex"@, "token_urlsafe"@]
    } else if module == "subprocess"@ {
        seq!["Popen"@, "call"@, "check_call"@, "check_output"@, "run"@]
    } else if module == "os"@ {
        seq![
            "chdir"@,
            "getcwd"@,
            "listdir"@,
            "makedirs"@,
            "mkdir"@,
            "popen"@,
            "remove"@,
            "removedirs"@,
            "rename"@,
            "replace"@,
            "rmdir"@,
            "scandir"@,
            "stat"@,
            "system"@,
            "unlink"@,
        ]
    } else if module == "urllib.request"@ {
        seq!["urlopen"@, "urlretrieve"@]
    } else {
        Seq::empty()
    }
}

fn strings(items: &[&str]) -> (res: Vec<String>)
    ensures
        res@.map_values(|s: String| s@) == items@.map_values(|s: &str| s@),
{
    let mut out: Vec<String> = Vec::new();
    let n = items.len();
    let mut i: usize = 0;
    while i < n
        invariant
            n == items@.len(),
            i <= n,
            out@.len() == i,
            forall|j: int| 0 <= j < i ==> out@[j]@ == items@[j]@,
        decreases n - i,
    {
        out.push(owned(items[i]));
        i = i + 1;
    }
    assert(out@.map_values(|s: String| s@) =~= items@.map_values(|s: &str| s@));
    out
}

/// The standard-library functions of a module that have effects.
pub fn stdlib_effect_symbols_for_module(module: &str) -> (res: Vec<String>)
    ensures
        res@.map_values(|s: String| s@) == spec_stdlib_symbols(module@),
{
    if str_eq(module, "time") {
        let items = ["monotonic", "perf_counter", "process_time", "sleep", "time"];
        let r = strings(&items);
        assert(items@.map_values(|s: &str| s@) =~= spec_stdlib_symbols(module@));
        r
    } else if str_eq(module, "random") {
        let items = ["choice", "choices", "randint", "random", "randrange", "seed", "shuffle"];
        let r = strings(&items);
        assert(items@.map_values(|s: &str| s@) =~= spec_stdlib_symbols(module@));
        r
    } else if str_eq(module, "secrets") {
        let items = ["choice", "randbelow", "token_bytes", "token_hex", "token_urlsafe"];
        let r = strings(&items);
        assert(items@.map_values(|s: &str| s@) =~= spec_stdlib_symbols(module@));
        r
    } else if str_eq(module, "subprocess") {
        let items = ["Popen", "call", "check_call", "check_output", "run"];
        let r = strings(&items);
        assert(items@.map_values(|s: &str| s@) =~= spec_stdlib_symbols(module@));
        r
    } else if str_eq(module, "os") {
        let items = [
            "chdir",
            "getcwd",
            "listdir",
            "makedirs",
            "mkdir",
            "popen",
            "remove",
            "removedirs",
            "rename",
            "replace",
            "rmdir",
            "scandir",
            "stat",
            "system",
            "unlink",
        ];
        let r = strings(&items);
        assert(items@.map_values(|s: &str| s@) =~= spec_stdlib_symbols(module@));
        r
    } else if str_eq(module, "urllib.request") {
        let items = ["urlopen", "urlretrieve"];
        let r = strings(&items);
        assert(items@.map_values(|s: &str| s@) =~= spec_stdlib_symbols(module@));
        r
    } else {
        let r: Vec<String> = Vec::new();
        assert(r@.map_values(|s: String| s@) =~= spec_stdlib_symbols(module@));
        r
    }
}

/// The effect a standard-library function has.
pub open spec fn spec_stdlib_effect_kind(module: Seq<char>, symbol: Seq<char>) -> Option<
    SpecEffectKind,
> {
    if module == "os"@ {
        if symbol == "popen"@ || symbol == "system"@ {
            Some(SpecEffectKind::IoProc)
        } else if spec_stdlib_symbols(module).contains(symbol) {
            Some(SpecEffectKind::IoFs)
        } else {
            None
        }
    } else if spec_stdlib_symbols(module).contains(symbol) {
        if module == "time"@ {
            Some(SpecEffectKind::Time)
        } else if module == "random"@ || module == "secrets"@ {
            Some(SpecEffectKind::Random)
        } else if module == "subprocess"@ {
            Some(SpecEffectKind::IoProc)
        } else {
            Some(SpecEffectKind::IoNet)
        }
    } else {
        None
    }
}

fn contains_name(names: &Vec<String>, name: &str) -> (res: bool)
    ensures
        res == names@.map_values(|s: String| s@).contains(name@),
{
    let ghost v = names@.map_values(|s: String| s@);
    let n = names.len();
    let mut i: usize = 0;
    while i < n
        invariant
            n == names@.len(),
            i <= n,
            v == names@.map_values(|s: String| s@),
            forall|j: int| 0 <= j < i ==> v[j] != name@,
        decreases n - i,
    {
        if str_eq(&names[i], name) {
            assert(v[i as int] == name@);
            return true;
        }
        i = i + 1;
    }
    false
}

/// The effect a standard-library function has.
pub fn stdlib_effect_kind(module: &str, symbol: &str) -> (res: Option<EffectKind>)
    ensures
        opt_kind(res) == spec_stdlib_effect_kind(module@, symbol@),
{
    let symbols = stdlib_effect_symbols_for_module(module);
    if str_eq(module, "os") {
        if str_eq(symbol, "popen") || str_eq(symbol, "system") {
            Some(EffectKind::IoProc)
        } else if contains_name(&symbols, symbol) {
            Some(EffectKind::IoFs)
        } else {
            None
        }
    } else if contains_name(&symbols, symbol) {
        if str_eq(module, "time") {
            Some(EffectKind::Time)
        } else if str_eq(module, "random") || str_eq(module, "secrets") {
            Some(EffectKind::Random)
        } else if str_eq(module, "subprocess") {
            Some(EffectKind::IoProc)
        } else {
            Some(EffectKind::IoNet)
        }
    } else {
        None
    }
}

/// The effect row of a standard-library function: its one effect, if it has one.
pub fn stdlib_symbol_effect_row(module: &str, symbol: &str) -> (res: Option<EffectRow>)
    ensures
        match spec_stdlib_effect_kind(module@, symbol@) {
            Some(k) => res matches Some(row) && row.wf() && row@ == seq![k],
            None => res is None,
        },
{
    match stdlib_effect_kind(module, symbol) {
        Some(effect) => {
            let mut row = EffectRow::empty();
            let ghost k = effect@;
            row.insert(effect);
            proof {
                assert(row@.to_set() =~= seq![k].to_set()) by {
                    assert(seq![k].to_set() =~= Set::<SpecEffectKind>::empty().insert(k)) by {
                        assert(seq![k][0] == k);
                    }
                }
                crate::effect_row::lemma_sorted_kinds_unique(row@, seq![k]);
            }
            Some(row)
        },
        None => None,
    }
}

/// The symbols of `symbols` that have an effect in `module`, in order.
pub open spec fn spec_effectful_symbols(module: Seq<char>, symbols: Seq<Seq<char>>) -> Seq<Seq<char>>
    decreases symbols.len(),
{
    if symbols.len() == 0 {
        Seq::empty()
    } else {
        let prev = spec_effectful_symbols(module, symbols.drop_last());
        if spec_stdlib_effect_kind(module, symbols.last()) is Some {
            prev.push(symbols.last())
        } else {
            prev
        }
    }
}

/// The names of pairs of a name and a row.
pub open spec fn pair_names(s: Seq<(String, EffectRow)>) -> Seq<Seq<char>> {
    s.map_values(|p: (String, EffectRow)| p.0@)
}

/// The effectful functions of a standard-library module with their rows, in table order.
pub fn stdlib_module_effect_methods(module: &str) -> (res: Vec<(String, EffectRow)>)
    ensures
        pair_names(res@) == spec_effectful_symbols(module@, spec_stdlib_symbols(module@)),
        forall|i: int|
            0 <= i < res@.len() ==> {
                let (name, row) = #[trigger] res@[i];
                &&& spec_stdlib_effect_kind(module@, name@) matches Some(k)
                &&& row.wf()
                &&& row@ == seq![k]
            },
{
    let symbols = stdlib_effect_symbols_for_module(module);
    let ghost names = symbols@.map_values(|s: String| s@);
    let mut out: Vec<(String, EffectRow)> = Vec::new();
    let n = symbols.len();
    let mut i: usize = 0;
    assert(names.take(0) =~= Seq::<Seq<char>>::empty());
    assert(pair_names(out@) =~= Seq::<Seq<char>>::empty());
    while i < n
        invariant
            n == symbols@.len(),
            i <= n,
            names == symbols@.map_values(|s: String| s@),
            names == spec_stdlib_symbols(module@),
            pair_names(out@) == spec_effectful_symbols(module@, names.take(i as int)),
            forall|a: int|
                0 <= a < out@.len() ==> {
                    let (name, row) = #[trigger] out@[a];
                    &&& spec_stdlib_effect_kind(module@, name@) matches Some(k)
                    &&& row.wf()
                    &&& row@ == seq![k]
                },
        decreases n - i,
    {
        let name = &symbols[i];
        assert(names[i as int] == name@);
        assert(names.take(i + 1).drop_last() =~= names.take(i as int));
        assert(names.take(i + 1).last() == name@);
        let ghost old_out = out@;
        match stdlib_symbol_effect_row(module, name) {
            Some(row) => {
                out.push((name.clone(), row));
                assert(pair_names(out@) =~= pair_names(old_out).push(name@));
            },
            None => {},
        }
        i = i + 1;
    }
    assert(names.take(n as int) =~= names);
    out
}

} // verus!
