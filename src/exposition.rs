//! Prometheus text exposition: metric headers, samples, label quoting and
//! decimal numbers.

use vstd::prelude::*;
use vstd::string::*;

verus! {

/// Type of a Prometheus metric.
#[derive(Clone, Copy, Debug, PartialEq, Eq)]
pub enum MetricType {
    /// Monotonically increasing value.
    Counter,
    /// Single numerical value that can go up and down.
    Gauge,
}

/// Name, help text and type of a metric.
#[derive(Clone, Copy, Debug)]
pub struct MetricLabel {
    pub name: &'static str,
    pub help_text: &'static str,
    pub ty: MetricType,
}

/// What the text of a metric header depends on: name, help text and type.
pub struct MetricHead {
    pub name: Seq<char>,
    pub help: Seq<char>,
    pub ty: MetricType,
}

impl View for MetricLabel {
    type V = MetricHead;

    open spec fn view(&self) -> MetricHead {
        MetricHead { name: self.name@, help: self.help_text@, ty: self.ty }
    }
}

/// The sample rows of a metric: label pairs and value.
pub type Rows = Seq<(Seq<(Seq<char>, Seq<char>)>, int)>;

impl MetricLabel {
    /// A gauge with the given name and help text.
    pub fn gauge(name: &'static str, help_text: &'static str) -> (r: Self)
        ensures
            r.name == name,
            r.help_text == help_text,
            r.ty == MetricType::Gauge,
    {
        MetricLabel { name, help_text, ty: MetricType::Gauge }
    }

    /// The name of the metric.
    pub fn name(&self) -> (r: &str)
        ensures
            r@ == self.name@,
    {
        self.name
    }
}

/// One sample: its label pairs and its value.
#[derive(Clone, Debug)]
pub struct Sample {
    pub labels: Vec<(String, String)>,
    pub value: i128,
}

/// The label pairs of a sample, as text.
pub open spec fn label_pairs(s: Sample) -> Seq<(Seq<char>, Seq<char>)> {
    s.labels@.map_values(|p: (String, String)| (p.0@, p.1@))
}

impl View for Sample {
    type V = (Seq<(Seq<char>, Seq<char>)>, int);

    open spec fn view(&self) -> (Seq<(Seq<char>, Seq<char>)>, int) {
        (label_pairs(*self), self.value as int)
    }
}

/// A metric with its samples; with no sample it is absent from an exposition.
#[derive(Clone, Debug)]
pub struct Metrics {
    pub label: MetricLabel,
    pub samples: Vec<Sample>,
}

/// The views of a list of samples.
pub open spec fn sample_views(samples: Seq<Sample>) -> Rows {
    samples.map_values(|s: Sample| s@)
}

/// The text of a digit.
pub open spec fn digit_text(d: int) -> Seq<char> {
    if d == 0 {
        "0"@
    } else if d == 1 {
        "1"@
    } else if d == 2 {
        "2"@
    } else if d == 3 {
        "3"@
    } else if d == 4 {
        "4"@
    } else if d == 5 {
        "5"@
    } else if d == 6 {
        "6"@
    } else if d == 7 {
        "7"@
    } else if d == 8 {
        "8"@
    } else {
        "9"@
    }
}

/// Decimal digits of a natural number, most significant first.
pub open spec fn natural_text(n: nat) -> Seq<char>
    decreases n,
{
    if n < 10 {
        digit_text(n as int)
    } else {
        natural_text(n / 10) + digit_text((n % 10) as int)
    }
}

/// Decimal text of an integer, with a leading `-` when negative.
pub open spec fn decimal(v: int) -> Seq<char> {
    if v < 0 {
        "-"@ + natural_text((-v) as nat)
    } else {
        natural_text(v as nat)
    }
}

/// The text that `{:?}` gives for a string: the string in double quotes,
/// with quotes, backslashes and control characters escaped.
pub uninterp spec fn debug_quoted(s: Seq<char>) -> Seq<char>;

/// `key="value"`, the value quoted.
pub open spec fn pair_text(p: (Seq<char>, Seq<char>)) -> Seq<char> {
    p.0 + "="@ + debug_quoted(p.1)
}

/// Label pairs joined by commas.
pub open spec fn pairs_text(ps: Seq<(Seq<char>, Seq<char>)>) -> Seq<char>
    decreases ps.len(),
{
    if ps.len() == 0 {
        Seq::empty()
    } else if ps.len() == 1 {
        pair_text(ps[0])
    } else {
        pairs_text(ps.drop_last()) + ","@ + pair_text(ps.last())
    }
}

/// One sample line: `name{k="v",...} value`, without braces when there is
/// no label.
pub open spec fn sample_text(name: Seq<char>, s: (Seq<(Seq<char>, Seq<char>)>, int)) -> Seq<char> {
    let labels = if s.0.len() == 0 { Seq::empty() } else { "{"@ + pairs_text(s.0) + "}"@ };
    name + labels + " "@ + decimal(s.1) + "\n"@
}

/// The sample lines of a metric, in order.
pub open spec fn samples_text(name: Seq<char>, ss: Rows) -> Seq<char>
    decreases ss.len(),
{
    if ss.len() == 0 {
        Seq::empty()
    } else {
        samples_text(name, ss.drop_last()) + sample_text(name, ss.last())
    }
}

/// The text of a metric type.
pub open spec fn type_text(t: MetricType) -> Seq<char> {
    match t {
        MetricType::Counter => "counter"@,
        MetricType::Gauge => "gauge"@,
    }
}

/// `# HELP` and `# TYPE` lines of a metric.
pub open spec fn header_text(h: MetricHead) -> Seq<char> {
    "# HELP "@ + h.name + " "@ + h.help + "\n"@ + "# TYPE "@ + h.name + " "@ + type_text(h.ty) + "\n"@
}

/// The full text of one metric block.
pub open spec fn metric_text(h: MetricHead, ss: Rows) -> Seq<char> {
    header_text(h) + samples_text(h.name, ss)
}

/// Metric blocks separated by blank lines.
pub open spec fn exposition_text(ms: Seq<(MetricHead, Rows)>) -> Seq<char>
    decreases ms.len(),
{
    if ms.len() == 0 {
        Seq::empty()
    } else if ms.len() == 1 {
        metric_text(ms[0].0, ms[0].1)
    } else {
        exposition_text(ms.drop_last()) + "\n"@ + metric_text(ms.last().0, ms.last().1)
    }
}

impl View for Metrics {
    type V = (MetricHead, Rows);

    open spec fn view(&self) -> (MetricHead, Rows) {
        (self.label@, sample_views(self.samples@))
    }
}

/// Relies on the `Debug` formatting of `str` (`format!("{:?}")`); the result
/// depends on the text alone.
#[verifier::external_body]
fn quote(s: &str) -> (r: String)
    ensures
        r@ == debug_quoted(s@),
{
    format!("{s:?}")
}

fn digit(d: u128) -> (r: &'static str)
    requires
        d < 10,
    ensures
        r@ == digit_text(d as int),
{
    if d == 0 {
        "0"
    } else if d == 1 {
        "1"
    } else if d == 2 {
        "2"
    } else if d == 3 {
        "3"
    } else if d == 4 {
        "4"
    } else if d == 5 {
        "5"
    } else if d == 6 {
        "6"
    } else if d == 7 {
        "7"
    } else if d == 8 {
        "8"
    } else {
        "9"
    }
}

fn push_natural(out: &mut String, n: u128)
    ensures
        final(out)@ == old(out)@ + natural_text(n as nat),
    decreases n,
{
    if n >= 10 {
        push_natural(out, n / 10);
    }
    out.append(digit(n % 10));
    assert(final(out)@ =~= old(out)@ + natural_text(n as nat));
}

/// Appends the decimal text of `v`.
pub fn push_decimal(out: &mut String, v: i128)
    ensures
        final(out)@ == old(out)@ + decimal(v as int),
{
    if v < 0 {
        out.append("-");
        let magnitude: u128 = (-(v + 1)) as u128 + 1;
        push_natural(out, magnitude);
        assert(final(out)@ =~= old(out)@ + decimal(v as int));
    } else {
        push_natural(out, v as u128);
    }
}

/// Appends one sample line.
fn push_sample(out: &mut String, name: &str, s: &Sample)
    ensures
        final(out)@ == old(out)@ + sample_text(name@, s@),
{
    out.append(name);
    let n = s.labels.len();
    if n > 0 {
        out.append("{");
        let ghost start = out@;
        let mut j: usize = 0;
        while j < n
            invariant
                n == s.labels@.len(),
                j <= n,
                out@ == start + pairs_text(label_pairs(*s).take(j as int)),
            decreases n - j,
        {
            let ghost ps = label_pairs(*s);
            if j > 0 {
                out.append(",");
            }
            out.append(s.labels[j].0.as_str());
            out.append("=");
            let quoted = quote(s.labels[j].1.as_str());
            out.append(quoted.as_str());
            proof {
                let t = ps.take(j + 1);
                assert(t.drop_last() =~= ps.take(j as int));
                assert(t.last() == ps[j as int]);
                if j == 0 {
                    assert(ps.take(0) =~= Seq::<(Seq<char>, Seq<char>)>::empty());
                }
            }
            j = j + 1;
        }
        assert(label_pairs(*s).take(n as int) =~= label_pairs(*s));
        out.append("}");
    }
    out.append(" ");
    push_decimal(out, s.value);
    out.append("\n");
    assert(final(out)@ =~= old(out)@ + sample_text(name@, s@));
}

/// Appends `m` to an exposition holding `done`, a blank line apart from
/// what precedes it.
pub fn push_block(out: &mut String, m: &Metrics, Ghost(done): Ghost<Seq<(MetricHead, Rows)>>)
    requires
        old(out)@ == exposition_text(done),
    ensures
        final(out)@ == exposition_text(done.push(m@)),
{
    let ghost all = done.push(m@);
    assert(all.drop_last() =~= done);
    if out.as_str().is_empty() {
        proof {
            if done.len() > 0 {
                lemma_exposition_nonempty(done);
            }
        }
        m.push_to(out);
        assert(final(out)@ =~= exposition_text(all));
    } else {
        out.append("\n");
        m.push_to(out);
        assert(final(out)@ =~= exposition_text(all));
    }
}

proof fn lemma_exposition_nonempty(ms: Seq<(MetricHead, Rows)>)
    requires
        ms.len() > 0,
    ensures
        exposition_text(ms).len() > 0,
    decreases ms.len(),
{
    reveal_strlit("# HELP ");
    if ms.len() > 1 {
        lemma_exposition_nonempty(ms.drop_last());
    }
}

impl Metrics {
    /// The text of this metric block: header lines, then one line per sample.
    pub fn render(&self) -> (r: String)
        ensures
            r@ == metric_text(self@.0, self@.1),
    {
        let mut out = String::new();
        self.push_to(&mut out);
        assert(out@ =~= metric_text(self@.0, self@.1));
        out
    }

    /// Appends the text of this metric block.
    pub fn push_to(&self, out: &mut String)
        ensures
            final(out)@ == old(out)@ + metric_text(self@.0, self@.1),
    {
        let name = self.label.name;
        out.append("# HELP ");
        out.append(name);
        out.append(" ");
        out.append(self.label.help_text);
        out.append("\n");
        out.append("# TYPE ");
        out.append(name);
        out.append(" ");
        match self.label.ty {
            MetricType::Counter => out.append("counter"),
            MetricType::Gauge => out.append("gauge"),
        }
        out.append("\n");
        let ghost head = out@;
        assert(head =~= old(out)@ + header_text(self.label@));
        let mut i: usize = 0;
        while i < self.samples.len()
            invariant
                i <= self.samples@.len(),
                out@ == head + samples_text(name@, sample_views(self.samples@).take(i as int)),
            decreases self.samples@.len() - i,
        {
            push_sample(out, name, &self.samples[i]);
            proof {
                let vs = sample_views(self.samples@);
                assert(vs.take(i + 1).drop_last() =~= vs.take(i as int));
                assert(vs.take(i + 1).last() == self.samples@[i as int]@);
            }
            i = i + 1;
        }
        assert(sample_views(self.samples@).take(i as int) =~= sample_views(self.samples@));
        assert(final(out)@ =~= old(out)@ + metric_text(self@.0, self@.1));
    }
}

} // verus!
