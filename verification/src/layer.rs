//! The tracing layer's own namespace filter and state, and the rules by
//! which it turns tracing events and spans into rust-debug lines.
use vstd::prelude::*;
use crate::duration::{humanize, humanize_text};
use crate::formatting::{colored_line, format_colored, format_plain, plain_line};
use crate::level::Level;
use crate::patterns::{any_match, exclusions, fields, inclusions, matches_any, parse_debug_patterns, pattern_match};
use crate::registry::{colors_setting, color_at, elapsed_since, parse_colors, parse_switch, setting_text, spec_color_at, switch_setting, EnvSettings};
use crate::span::{entry_message, entry_text, exit_message, exit_text};
use crate::text::{is_wrapped_in, push_char, push_string, str_eq};

verus! {

/// What the layer knows of one namespace.
pub struct LayerNamespaceView {
    pub name: Seq<char>,
    pub color: u8,
    pub last_call: Option<u128>,
}

/// The abstract state of a [`TracingLayer`].
pub struct TracingLayerView {
    pub includes: Seq<Seq<char>>,
    pub excludes: Seq<Seq<char>>,
    pub namespaces: Seq<LayerNamespaceView>,
    pub use_colors: bool,
    pub show_diff: bool,
    pub show_time: bool,
}

/// The layer shows `ns` when no exclusion and some inclusion matches it.
pub open spec fn layer_shows(v: TracingLayerView, ns: Seq<char>) -> bool {
    !any_match(v.excludes, ns) && any_match(v.includes, ns)
}

/// The layer shows a namespace exactly when some inclusion pattern matches it
/// and no exclusion pattern does: a layer without inclusions shows nothing.
pub proof fn lemma_layer_shows_only_included(v: TracingLayerView, ns: Seq<char>)
    ensures
        layer_shows(v, ns) == ((exists|i: int| 0 <= i < v.includes.len() && pattern_match(#[trigger] v.includes[i], ns))
            && (forall|j: int| 0 <= j < v.excludes.len() ==> !pattern_match(#[trigger] v.excludes[j], ns))),
        v.includes.len() == 0 ==> !layer_shows(v, ns),
{
}

/// With `DEBUG` unset or empty the layer shows no namespace.
pub proof fn lemma_unset_debug_shows_nothing(settings: EnvSettings, ns: Seq<char>)
    requires
        setting_text(settings.debug).len() == 0,
    ensures
        !layer_shows(layer_initial_view(settings), ns),
{
    let t = setting_text(settings.debug);
    assert(fields(t) =~= seq![Seq::<char>::empty()]);
    let fs = fields(t);
    assert(fs.drop_last() =~= Seq::<Seq<char>>::empty());
    assert(inclusions(fs.drop_last()) =~= Seq::<Seq<char>>::empty());
    assert(inclusions(fs) =~= Seq::<Seq<char>>::empty());
    lemma_layer_shows_only_included(layer_initial_view(settings), ns);
}

/// Position of `ns` among the namespaces the layer has seen.
pub open spec fn layer_index_of(entries: Seq<LayerNamespaceView>, ns: Seq<char>) -> Option<int> {
    if exists|i: int| 0 <= i < entries.len() && (#[trigger] entries[i]).name == ns {
        Some(choose|i: int| 0 <= i < entries.len() && (#[trigger] entries[i]).name == ns)
    } else {
        None
    }
}

/// Namespaces are seen once each and the `i`-th takes the `i`-th color.
pub open spec fn layer_wf(v: TracingLayerView) -> bool {
    &&& forall|i: int, j: int|
        0 <= i < v.namespaces.len() && 0 <= j < v.namespaces.len() && i != j
            ==> (#[trigger] v.namespaces[i]).name != (#[trigger] v.namespaces[j]).name
    &&& forall|i: int| 0 <= i < v.namespaces.len() ==> (#[trigger] v.namespaces[i]).color == spec_color_at(i)
}

/// The color and time differential [`TracingLayer::get_color_and_diff`]
/// reports, and the state after it.
pub open spec fn color_and_diff_step(v: TracingLayerView, ns: Seq<char>, now: u128) -> ((u8, u128), TracingLayerView) {
    match layer_index_of(v.namespaces, ns) {
        Some(i) => {
            let e = v.namespaces[i];
            (
                (e.color, elapsed_since(e.last_call, now)),
                TracingLayerView { namespaces: v.namespaces.update(i, LayerNamespaceView { last_call: Some(now), ..e }), ..v },
            )
        },
        None => {
            let c = spec_color_at(v.namespaces.len() as int);
            (
                (c, 0),
                TracingLayerView {
                    namespaces: v.namespaces.push(LayerNamespaceView { name: ns, color: c, last_call: Some(now) }),
                    ..v
                },
            )
        },
    }
}

/// A line the layer renders: colored when colors are on, plain otherwise.
/// Colors start on only for a terminal, and `with_colors` overrides that.
pub open spec fn layer_line(
    v: TracingLayerView,
    ns: Seq<char>,
    level: Level,
    color: u8,
    message: Seq<char>,
    diff: Seq<char>,
    show_diff: bool,
    ts: Seq<char>,
) -> Seq<char> {
    if v.use_colors {
        colored_line(ns, level, color, message, diff, v.show_time, show_diff, ts)
    } else {
        plain_line(ns, level, message, diff, show_diff, ts)
    }
}

/// The layer's state as configured from the `DEBUG*` settings: colors need
/// both the setting and a terminal.
pub open spec fn layer_initial_view(settings: EnvSettings) -> TracingLayerView {
    let patterns = fields(setting_text(settings.debug));
    TracingLayerView {
        includes: inclusions(patterns),
        excludes: exclusions(patterns),
        namespaces: Seq::empty(),
        use_colors: colors_setting(settings.debug_colors) && settings.stderr_is_tty,
        show_diff: !switch_setting(settings.debug_hide_diff),
        show_time: switch_setting(settings.debug_show_time),
    }
}

struct LayerNamespace {
    name: String,
    color: u8,
    last_call: Option<u128>,
}

impl LayerNamespace {
    spec fn view(&self) -> LayerNamespaceView {
        LayerNamespaceView { name: self.name@, color: self.color, last_call: self.last_call }
    }
}

/// A tracing layer that renders events and spans in rust-debug's
/// namespace-colored format, with its own namespace filter and state.
pub struct TracingLayer {
    includes: Vec<String>,
    excludes: Vec<String>,
    namespaces: Vec<LayerNamespace>,
    use_colors: bool,
    show_diff: bool,
    show_time: bool,
}

impl View for TracingLayer {
    type V = TracingLayerView;

    closed spec fn view(&self) -> TracingLayerView {
        TracingLayerView {
            includes: self.includes.deep_view(),
            excludes: self.excludes.deep_view(),
            namespaces: Seq::new(self.namespaces.len() as nat, |i: int| self.namespaces[i].view()),
            use_colors: self.use_colors,
            show_diff: self.show_diff,
            show_time: self.show_time,
        }
    }
}

/// The timing record of a span the layer follows.
pub struct SpanTiming {
    /// When the span was last entered (microseconds on a monotonic clock).
    pub entered: Option<u128>,
    pub namespace: String,
    pub name: String,
}

/// The namespace and name a span is shown under.
#[derive(Debug, PartialEq, Eq)]
pub struct SpanDescriptor {
    pub namespace: String,
    pub name: String,
}

/// The span fields the layer looks at.
pub struct SpanFieldValues {
    pub namespace: Option<String>,
    pub message: Option<String>,
    pub rust_debug_managed: bool,
}

impl Default for SpanFieldValues {
    fn default() -> (r: SpanFieldValues)
        ensures
            r.namespace is None,
            r.message is None,
            !r.rust_debug_managed,
    {
        SpanFieldValues { namespace: None, message: None, rust_debug_managed: false }
    }
}

/// The text of a `Debug`-formatted value without the quotes that surround
/// a formatted string.
pub open spec fn unquoted(s: Seq<char>) -> Seq<char> {
    if is_wrapped_in(s, '"') { s.subrange(1, s.len() - 1) } else { s }
}

/// Removes the double quotes around `text` (a value rendered with `{:?}`)
/// when it starts and ends with one; otherwise returns it unchanged.
pub fn normalize_debug_value(text: &str) -> (r: String)
    ensures
        r@ == unquoted(text@),
{
    let n = text.unicode_len();
    if n >= 2 && text.get_char(0) == '"' && text.get_char(n - 1) == '"' {
        String::from_str(text.substring_char(1, n - 1))
    } else {
        String::from_str(text)
    }
}

/// The namespace and name of a span: none for spans rust-debug manages
/// itself (they log their own lines); otherwise the `namespace`/`ns` field
/// or else the target, and the `message`/`msg` field or else the span's
/// name.
pub fn resolve_span_descriptor(target: &str, default_name: &str, fields: SpanFieldValues) -> (r: Option<SpanDescriptor>)
    ensures
        fields.rust_debug_managed ==> r is None,
        !fields.rust_debug_managed ==> (r matches Some(d) && d.namespace@ == (match fields.namespace {
            Some(n) => n@,
            None => target@,
        }) && d.name@ == (match fields.message {
            Some(m) => m@,
            None => default_name@,
        })),
{
    if fields.rust_debug_managed {
        return None;
    }
    let namespace = match fields.namespace {
        Some(n) => n,
        None => String::from_str(target),
    };
    let name = match fields.message {
        Some(m) => m,
        None => String::from_str(default_name),
    };
    Some(SpanDescriptor { namespace, name })
}

/// Collects the fields of a span.
pub struct SpanFieldCollector {
    values: SpanFieldValues,
}

/// The name of the field that holds a namespace.
pub open spec fn is_namespace_field(f: Seq<char>) -> bool {
    f == seq!['n', 'a', 'm', 'e', 's', 'p', 'a', 'c', 'e'] || f == seq!['n', 's']
}

/// The name of the field that holds a message.
pub open spec fn is_message_field(f: Seq<char>) -> bool {
    f == seq!['m', 'e', 's', 's', 'a', 'g', 'e']
}

/// The names of the fields that hold a span's message.
pub open spec fn is_span_message_field(f: Seq<char>) -> bool {
    is_message_field(f) || f == seq!['m', 's', 'g']
}

fn field_is_namespace(field: &str) -> (r: bool)
    ensures
        r == is_namespace_field(field@),
{
    proof {
        reveal_strlit("namespace");
        reveal_strlit("ns");
        assert("namespace"@ =~= seq!['n', 'a', 'm', 'e', 's', 'p', 'a', 'c', 'e']);
        assert("ns"@ =~= seq!['n', 's']);
    }
    str_eq(field, "namespace") || str_eq(field, "ns")
}

fn field_is_message(field: &str) -> (r: bool)
    ensures
        r == is_message_field(field@),
{
    proof {
        reveal_strlit("message");
        assert("message"@ =~= seq!['m', 'e', 's', 's', 'a', 'g', 'e']);
    }
    str_eq(field, "message")
}

fn field_is_span_message(field: &str) -> (r: bool)
    ensures
        r == is_span_message_field(field@),
{
    proof {
        reveal_strlit("msg");
        assert("msg"@ =~= seq!['m', 's', 'g']);
    }
    field_is_message(field) || str_eq(field, "msg")
}

impl SpanFieldCollector {
    /// A collector with no field seen.
    pub fn new() -> (r: SpanFieldCollector)
        ensures
            r.values().namespace is None,
            r.values().message is None,
            !r.values().rust_debug_managed,
    {
        SpanFieldCollector { values: SpanFieldValues::default() }
    }

    /// The values collected so far.
    pub closed spec fn values(&self) -> SpanFieldValues {
        self.values
    }

    /// The values collected.
    pub fn into_values(self) -> (r: SpanFieldValues)
        ensures
            r == self.values(),
    {
        self.values
    }

    /// Records a string field: `namespace`/`ns` set the namespace,
    /// `message`/`msg` the message; other fields are ignored.
    pub fn record_str(&mut self, field: &str, value: &str)
        ensures
            is_namespace_field(field@) ==> (final(self).values().namespace matches Some(n) && n@ == value@),
            !is_namespace_field(field@) ==> final(self).values().namespace == old(self).values().namespace,
            is_span_message_field(field@) && !is_namespace_field(field@) ==> (final(self).values().message matches Some(m) && m@ == value@),
            !is_span_message_field(field@) || is_namespace_field(field@) ==> final(self).values().message == old(self).values().message,
            final(self).values().rust_debug_managed == old(self).values().rust_debug_managed,
    {
        if field_is_namespace(field) {
            self.values.namespace = Some(String::from_str(value));
        } else if field_is_span_message(field) {
            self.values.message = Some(String::from_str(value));
        }
    }

    /// Records a field rendered with `{:?}`: as [`Self::record_str`], with
    /// the surrounding quotes of a formatted string removed.
    pub fn record_debug(&mut self, field: &str, debug_text: &str)
        ensures
            is_namespace_field(field@) ==> (final(self).values().namespace matches Some(n) && n@ == unquoted(debug_text@)),
            !is_namespace_field(field@) ==> final(self).values().namespace == old(self).values().namespace,
            is_span_message_field(field@) && !is_namespace_field(field@) ==> (final(self).values().message matches Some(m) && m@ == unquoted(debug_text@)),
            !is_span_message_field(field@) || is_namespace_field(field@) ==> final(self).values().message == old(self).values().message,
            final(self).values().rust_debug_managed == old(self).values().rust_debug_managed,
    {
        let value = normalize_debug_value(debug_text);
        self.record_str(field, value.as_str());
    }

    /// Records a boolean field: `rust_debug_managed` marks spans that
    /// rust-debug manages itself.
    pub fn record_bool(&mut self, field: &str, value: bool)
        ensures
            final(self).values().namespace == old(self).values().namespace,
            final(self).values().message == old(self).values().message,
            final(self).values().rust_debug_managed == (if field@ == seq!['r', 'u', 's', 't', '_', 'd', 'e', 'b', 'u', 'g', '_', 'm', 'a', 'n', 'a', 'g', 'e', 'd'] {
                value
            } else {
                old(self).values().rust_debug_managed
            }),
    {
        proof {
            reveal_strlit("rust_debug_managed");
            assert("rust_debug_managed"@ =~= seq!['r', 'u', 's', 't', '_', 'd', 'e', 'b', 'u', 'g', '_', 'm', 'a', 'n', 'a', 'g', 'e', 'd']);
        }
        if str_eq(field, "rust_debug_managed") {
            self.values.rust_debug_managed = value;
        }
    }
}

/// `key=value` pairs separated by single spaces.
pub open spec fn joined_fields(fs: Seq<(Seq<char>, Seq<char>)>) -> Seq<char>
    decreases fs.len(),
{
    if fs.len() == 0 {
        Seq::empty()
    } else {
        let last = fs.last();
        let pair = last.0 + seq!['='] + last.1;
        if fs.len() == 1 { pair } else { joined_fields(fs.drop_last()) + seq![' '] + pair }
    }
}

/// The message of an event line: the `message` field, then the other
/// fields as `key=value`, separated by a space when both are present.
pub open spec fn event_text(message: Seq<char>, fs: Seq<(Seq<char>, Seq<char>)>) -> Seq<char> {
    if fs.len() == 0 {
        message
    } else if message.len() == 0 {
        joined_fields(fs)
    } else {
        message + seq![' '] + joined_fields(fs)
    }
}

/// An event's text starts with its message: the text is the message alone
/// when there are no other fields, and otherwise the message (when there is
/// one) followed by a space and the fields, the last field ending the text
/// as `key=value`.
pub proof fn lemma_event_text_starts_with_message(message: Seq<char>, fs: Seq<(Seq<char>, Seq<char>)>)
    ensures
        event_text(message, fs).len() >= message.len(),
        event_text(message, fs).subrange(0, message.len() as int) == message,
        fs.len() == 0 ==> event_text(message, fs) == message,
        fs.len() > 0 && message.len() > 0 ==> event_text(message, fs)[message.len() as int] == ' ',
        fs.len() > 0 ==> ({
            let t = event_text(message, fs);
            let last = fs.last().0 + seq!['='] + fs.last().1;
            t.len() >= last.len() && t.subrange(t.len() - last.len(), t.len() as int) == last
        }),
{
    let t = event_text(message, fs);
    if fs.len() > 0 {
        let last = fs.last().0 + seq!['='] + fs.last().1;
        let j = joined_fields(fs);
        if fs.len() == 1 {
            assert(j =~= last);
        } else {
            assert(j =~= joined_fields(fs.drop_last()) + seq![' '] + last);
        }
        assert(j.subrange(j.len() - last.len(), j.len() as int) =~= last);
        if message.len() == 0 {
            assert(t =~= j);
            assert(t.subrange(0, 0) =~= message);
        } else {
            assert(t =~= message + seq![' '] + j);
            assert(t.subrange(0, message.len() as int) =~= message);
            assert(t.subrange(t.len() - last.len(), t.len() as int) =~= last);
        }
    }
}

/// Collects the fields of an event.
pub struct FieldCollector {
    message: String,
    fields: Vec<(String, String)>,
    namespace: Option<String>,
}

/// The abstract state of a [`FieldCollector`].
pub struct FieldCollectorView {
    pub message: Seq<char>,
    pub fields: Seq<(Seq<char>, Seq<char>)>,
    pub namespace: Option<Seq<char>>,
}

impl View for FieldCollector {
    type V = FieldCollectorView;

    closed spec fn view(&self) -> FieldCollectorView {
        FieldCollectorView {
            message: self.message@,
            fields: self.fields.deep_view(),
            namespace: self.namespace.deep_view(),
        }
    }
}

impl FieldCollector {
    /// A collector with no field seen.
    pub fn new() -> (r: FieldCollector)
        ensures
            r@ == (FieldCollectorView { message: Seq::empty(), fields: Seq::empty(), namespace: None }),
    {
        let r = FieldCollector { message: String::new(), fields: Vec::new(), namespace: None };
        assert(r@.fields =~= Seq::<(Seq<char>, Seq<char>)>::empty());
        r
    }

    /// Records a field given as text (a string, or a value rendered with
    /// `{:?}`): `message` sets the message, `namespace`/`ns` the namespace,
    /// any other field is kept as a `key=value` pair.
    pub fn record_text(&mut self, field: &str, value: String)
        ensures
            final(self)@ == (if is_message_field(field@) {
                FieldCollectorView { message: value@, ..old(self)@ }
            } else if is_namespace_field(field@) {
                FieldCollectorView { namespace: Some(value@), ..old(self)@ }
            } else {
                FieldCollectorView { fields: old(self)@.fields.push((field@, value@)), ..old(self)@ }
            }),
    {
        if field_is_message(field) {
            self.message = value;
        } else if field_is_namespace(field) {
            self.namespace = Some(value);
        } else {
            self.record_value(field, value);
        }
    }

    /// Records a field given as a number or a boolean (already rendered):
    /// kept as a `key=value` pair whatever its name.
    pub fn record_value(&mut self, field: &str, value: String)
        ensures
            final(self)@ == (FieldCollectorView { fields: old(self)@.fields.push((field@, value@)), ..old(self)@ }),
    {
        let ghost before = self.fields.deep_view();
        self.fields.push((String::from_str(field), value));
        assert(self.fields.deep_view() =~= before.push((field@, value@)));
    }

    /// The event's namespace: the `namespace`/`ns` field, else the target.
    pub fn namespace_or(&self, target: &str) -> (r: String)
        ensures
            r@ == (match self@.namespace {
                Some(n) => n,
                None => target@,
            }),
    {
        match &self.namespace {
            Some(n) => n.clone(),
            None => String::from_str(target),
        }
    }

    /// The message of the event line (see [`event_text`]).
    pub fn event_message(&self) -> (r: String)
        ensures
            r@ == event_text(self@.message, self@.fields),
    {
        let mut out = self.message.clone();
        let n = self.fields.len();
        if n == 0 {
            return out;
        }
        if self.message.as_str().unicode_len() > 0 {
            push_char(&mut out, ' ');
        }
        let ghost start = out@;
        let ghost fs = self@.fields;
        let mut i: usize = 0;
        while i < n
            invariant
                n == self.fields.len(),
                n == fs.len(),
                fs == self.fields.deep_view(),
                0 < n,
                i <= n,
                out@ == start + joined_fields(fs.subrange(0, i as int)),
            decreases n - i,
        {
            if i > 0 {
                push_char(&mut out, ' ');
            }
            out.append(self.fields[i].0.as_str());
            push_char(&mut out, '=');
            out.append(self.fields[i].1.as_str());
            assert(fs.subrange(0, i + 1).drop_last() =~= fs.subrange(0, i as int));
            assert(fs[i as int] == (self.fields[i as int].0@, self.fields[i as int].1@));
            assert(out@ =~= start + joined_fields(fs.subrange(0, i + 1)));
            i = i + 1;
        }
        assert(fs.subrange(0, n as int) =~= fs);
        out
    }
}

impl TracingLayer {
    /// The layer's invariant.
    pub open spec fn wf(&self) -> bool {
        layer_wf(self@)
    }

    /// A layer configured from the `DEBUG`, `DEBUG_COLORS`,
    /// `DEBUG_SHOW_TIME` and `DEBUG_HIDE_DIFF` settings.
    pub fn from_env(settings: &EnvSettings) -> (r: TracingLayer)
        ensures
            r.wf(),
            r@ == layer_initial_view(*settings),
    {
        let debug = match &settings.debug {
            Some(s) => s.clone(),
            None => String::new(),
        };
        let (includes, excludes) = parse_debug_patterns(debug.as_str());
        let use_colors = parse_colors(&settings.debug_colors) && settings.stderr_is_tty;
        let r = TracingLayer {
            includes,
            excludes,
            namespaces: Vec::new(),
            use_colors,
            show_diff: !parse_switch(&settings.debug_hide_diff),
            show_time: parse_switch(&settings.debug_show_time),
        };
        assert(r@.namespaces =~= Seq::<LayerNamespaceView>::empty());
        r
    }

    /// A layer that shows all namespaces, as with `DEBUG=*` (so no
    /// exclusion), with colors, diffs and timestamps configured from the
    /// settings.
    pub fn all(settings: &EnvSettings) -> (r: TracingLayer)
        ensures
            r.wf(),
            r@ == (TracingLayerView {
                includes: seq![seq!['*']],
                excludes: Seq::empty(),
                ..layer_initial_view(*settings)
            }),
    {
        let mut layer = Self::from_env(settings);
        let mut includes: Vec<String> = Vec::new();
        proof {
            reveal_strlit("*");
            assert("*"@ =~= seq!['*']);
        }
        push_string(&mut includes, String::from_str("*"));
        layer.includes = includes;
        layer.excludes = Vec::new();
        assert(layer@.includes =~= seq![seq!['*']]);
        assert(layer@.excludes =~= Seq::<Seq<char>>::empty());
        assert(layer@.namespaces =~= Seq::<LayerNamespaceView>::empty());
        layer
    }

    /// The layer with colors forced on or off: from then on its lines are
    /// colored exactly when `colors` is true, terminal or not.
    pub fn with_colors(self, colors: bool) -> (r: TracingLayer)
        requires
            self.wf(),
        ensures
            r.wf(),
            r@ == (TracingLayerView { use_colors: colors, ..self@ }),
    {
        let mut layer = self;
        layer.use_colors = colors;
        assert(layer@.namespaces =~= self@.namespaces);
        layer
    }

    /// The layer with time differentials shown or hidden.
    pub fn with_diff(self, diff: bool) -> (r: TracingLayer)
        requires
            self.wf(),
        ensures
            r.wf(),
            r@ == (TracingLayerView { show_diff: diff, ..self@ }),
    {
        let mut layer = self;
        layer.show_diff = diff;
        assert(layer@.namespaces =~= self@.namespaces);
        layer
    }

    /// The layer with timestamps shown or hidden.
    pub fn with_time(self, time: bool) -> (r: TracingLayer)
        requires
            self.wf(),
        ensures
            r.wf(),
            r@ == (TracingLayerView { show_time: time, ..self@ }),
    {
        let mut layer = self;
        layer.show_time = time;
        assert(layer@.namespaces =~= self@.namespaces);
        layer
    }

    /// Whether time differentials are shown on event lines.
    pub fn show_diff(&self) -> (r: bool)
        ensures
            r == self@.show_diff,
    {
        self.show_diff
    }

    /// Whether the layer shows namespace `ns`: no exclusion matches it and
    /// some inclusion does.
    pub fn is_enabled(&self, ns: &str) -> (r: bool)
        ensures
            r == layer_shows(self@, ns@),
    {
        if matches_any(&self.excludes, ns) {
            return false;
        }
        matches_any(&self.includes, ns)
    }

    fn find(&self, ns: &str) -> (r: Option<usize>)
        requires
            self.wf(),
        ensures
            r matches Some(i) ==> layer_index_of(self@.namespaces, ns@) == Some(i as int),
            r is None ==> layer_index_of(self@.namespaces, ns@) is None,
    {
        let mut i: usize = 0;
        while i < self.namespaces.len()
            invariant
                self.wf(),
                i <= self.namespaces.len(),
                forall|k: int| 0 <= k < i ==> (#[trigger] self@.namespaces[k]).name != ns@,
            decreases self.namespaces.len() - i,
        {
            if str_eq(self.namespaces[i].name.as_str(), ns) {
                let ghost v = self@.namespaces;
                assert(v[i as int].name == ns@);
                let ghost c = choose|j: int| 0 <= j < v.len() && (#[trigger] v[j]).name == ns@;
                assert(v[c].name == ns@);
                return Some(i);
            }
            i = i + 1;
        }
        None
    }

    /// The color of namespace `ns` and the time since the layer last saw it
    /// (zero the first time, when the namespace takes the next color), and
    /// notes `now` as its last sighting.
    pub fn get_color_and_diff(&mut self, ns: &str, now: u128) -> (r: (u8, u128))
        requires
            old(self).wf(),
        ensures
            final(self).wf(),
            (r, final(self)@) == color_and_diff_step(old(self)@, ns@, now),
    {
        let ghost v = old(self)@;
        match self.find(ns) {
            Some(i) => {
                let color = self.namespaces[i].color;
                let diff: u128 = match self.namespaces[i].last_call {
                    Some(t) => if now >= t { now - t } else { 0 },
                    None => 0,
                };
                self.namespaces[i].last_call = Some(now);
                assert(self@.namespaces =~= v.namespaces.update(i as int, LayerNamespaceView { last_call: Some(now), ..v.namespaces[i as int] }));
                (color, diff)
            },
            None => {
                let color = color_at(self.namespaces.len());
                self.namespaces.push(LayerNamespace { name: String::from_str(ns), color, last_call: Some(now) });
                proof {
                    assert forall|k: int| 0 <= k < v.namespaces.len() implies (#[trigger] v.namespaces[k]).name != ns@ by {
                        if v.namespaces[k].name == ns@ {
                            assert(exists|j: int| 0 <= j < v.namespaces.len() && (#[trigger] v.namespaces[j]).name == ns@);
                        }
                    }
                }
                assert(self@.namespaces =~= v.namespaces.push(LayerNamespaceView { name: ns@, color, last_call: Some(now) }));
                (color, 0)
            },
        }
    }

    /// Renders a line for namespace `ns` in color `color`.
    pub fn render_line(&self, ns: &str, level: Level, color: u8, message: &str, diff: &str, show_diff: bool, ts: &str) -> (r: String)
        ensures
            r@ == layer_line(self@, ns@, level, color, message@, diff@, show_diff, ts@),
    {
        if self.use_colors {
            format_colored(ns, level, color, message, diff, self.show_time, show_diff, ts)
        } else {
            format_plain(ns, level, message, diff, show_diff, ts)
        }
    }

    /// The timing record for a new span, if the layer follows it: not a
    /// span rust-debug manages, and its namespace shown.
    pub fn track_span(&self, target: &str, default_name: &str, fields: SpanFieldValues) -> (r: Option<SpanTiming>)
        ensures
            r matches Some(t) ==> (!fields.rust_debug_managed && layer_shows(self@, t.namespace@) && t.entered is None
                && t.namespace@ == (match fields.namespace { Some(n) => n@, None => target@ })
                && t.name@ == (match fields.message { Some(m) => m@, None => default_name@ })),
            r is None ==> fields.rust_debug_managed || !layer_shows(self@, (match fields.namespace { Some(n) => n@, None => target@ })),
    {
        match resolve_span_descriptor(target, default_name, fields) {
            None => None,
            Some(d) => {
                if self.is_enabled(d.namespace.as_str()) {
                    Some(SpanTiming { entered: None, namespace: d.namespace, name: d.name })
                } else {
                    None
                }
            },
        }
    }

    /// Entering a followed span at `now`: notes the time, and returns the
    /// `-> {name}` line when its namespace is shown.
    pub fn enter_span(&mut self, timing: &mut SpanTiming, now: u128, ts: &str) -> (r: Option<String>)
        requires
            old(self).wf(),
        ensures
            final(self).wf(),
            final(timing).entered == Some(now),
            final(timing).namespace == old(timing).namespace,
            final(timing).name == old(timing).name,
            !layer_shows(old(self)@, old(timing).namespace@) ==> r is None && final(self)@ == old(self)@,
            layer_shows(old(self)@, old(timing).namespace@) ==> {
                let (cd, after) = color_and_diff_step(old(self)@, old(timing).namespace@, now);
                &&& final(self)@ == after
                &&& r matches Some(line) && line@ == layer_line(old(self)@, old(timing).namespace@, Level::Debug, cd.0, entry_text(old(timing).name@), Seq::empty(), false, ts@)
            },
    {
        timing.entered = Some(now);
        if !self.is_enabled(timing.namespace.as_str()) {
            return None;
        }
        let (color, _) = self.get_color_and_diff(timing.namespace.as_str(), now);
        let msg = entry_message(timing.name.as_str());
        proof {
            reveal_strlit("");
        }
        Some(self.render_line(timing.namespace.as_str(), Level::Debug, color, msg.as_str(), "", false, ts))
    }

    /// Leaving a followed span at `now`: returns the
    /// `<- {name} ({elapsed})` line when its namespace is shown; `elapsed` is
    /// the humanized time since the span was entered, `?` when it never was.
    pub fn exit_span(&mut self, timing: &SpanTiming, now: u128, ts: &str) -> (r: Option<String>)
        requires
            old(self).wf(),
        ensures
            final(self).wf(),
            !layer_shows(old(self)@, timing.namespace@) ==> r is None && final(self)@ == old(self)@,
            layer_shows(old(self)@, timing.namespace@) ==> {
                let (cd, after) = color_and_diff_step(old(self)@, timing.namespace@, now);
                let shown = match timing.entered {
                    Some(t) => humanize_text((if now >= t { (now - t) as u128 } else { 0u128 }) as nat),
                    None => seq!['?'],
                };
                &&& final(self)@ == after
                &&& r matches Some(line) && line@ == layer_line(old(self)@, timing.namespace@, Level::Debug, cd.0, exit_text(timing.name@, shown), Seq::empty(), false, ts@)
            },
    {
        if !self.is_enabled(timing.namespace.as_str()) {
            return None;
        }
        proof {
            reveal_strlit("?");
            assert("?"@ =~= seq!['?']);
            reveal_strlit("");
        }
        let shown: String = match timing.elapsed(now) {
            Some(e) => humanize(e),
            None => String::from_str("?"),
        };
        let (color, _) = self.get_color_and_diff(timing.namespace.as_str(), now);
        let msg = exit_message(timing.name.as_str(), shown.as_str());
        Some(self.render_line(timing.namespace.as_str(), Level::Debug, color, msg.as_str(), "", false, ts))
    }

    /// The line for a tracing event whose fields `collector` gathered: none
    /// when its namespace (the `namespace`/`ns` field, else the target) is
    /// not shown; otherwise the namespace's color and time differential are
    /// taken as of `now`, and the message carries the other fields.
    pub fn event_line(&mut self, collector: &FieldCollector, target: &str, level: Level, now: u128, ts: &str) -> (r: Option<String>)
        requires
            old(self).wf(),
        ensures
            final(self).wf(),
            ({
                let ns = match collector@.namespace {
                    Some(n) => n,
                    None => target@,
                };
                &&& !layer_shows(old(self)@, ns) ==> r is None && final(self)@ == old(self)@
                &&& layer_shows(old(self)@, ns) ==> {
                    let (cd, after) = color_and_diff_step(old(self)@, ns, now);
                    let diff = if old(self)@.show_diff { humanize_text(cd.1 as nat) } else { Seq::empty() };
                    &&& final(self)@ == after
                    &&& r matches Some(line) && line@ == layer_line(
                        old(self)@,
                        ns,
                        level,
                        cd.0,
                        event_text(collector@.message, collector@.fields),
                        diff,
                        old(self)@.show_diff,
                        ts@,
                    )
                }
            }),
    {
        let ns = collector.namespace_or(target);
        if !self.is_enabled(ns.as_str()) {
            return None;
        }
        let (color, diff) = self.get_color_and_diff(ns.as_str(), now);
        let msg = collector.event_message();
        let diff_str = if self.show_diff { humanize(diff) } else { String::new() };
        Some(self.render_line(ns.as_str(), level, color, msg.as_str(), diff_str.as_str(), self.show_diff, ts))
    }
}

impl SpanTiming {
    /// Microseconds since the span was entered, if it was.
    pub fn elapsed(&self, now: u128) -> (r: Option<u128>)
        ensures
            r == (match self.entered {
                Some(t) => Some(if now >= t { (now - t) as u128 } else { 0u128 }),
                None => None,
            }),
    {
        match self.entered {
            Some(t) => Some(if now >= t { now - t } else { 0 }),
            None => None,
        }
    }
}

} // verus!
