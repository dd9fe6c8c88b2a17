use vstd::prelude::*;

use crate::text::strings_view;

verus! {

/// One received line with its timestamps: the elapsed time since the
/// stream started and the wall-clock time, both in milliseconds.
pub struct Packet {
    pub payload: String,
    pub relative_time: u64,
    pub absolute_time: u64,
}

/// The mathematical shape of a packet.
#[verifier::ext_equal]
pub ghost struct PacketView {
    pub payload: Seq<char>,
    pub relative_time: u64,
    pub absolute_time: u64,
}

impl View for Packet {
    type V = PacketView;

    open spec fn view(&self) -> PacketView {
        PacketView {
            payload: self.payload@,
            relative_time: self.relative_time,
            absolute_time: self.absolute_time,
        }
    }
}

/// The shared store: channel labels, the two parallel timestamp
/// sequences, one bounded sample sequence per channel, and the retained
/// raw traffic. Each sample is the validated numeric text the instrument
/// sent for it.
pub struct DataContainer {
    pub names: Vec<String>,
    pub time: Vec<u64>,
    pub absolute_time: Vec<u64>,
    pub dataset: Vec<Vec<String>>,
    pub raw_traffic: Vec<Packet>,
}

/// The mathematical shape of the store.
#[verifier::ext_equal]
pub ghost struct StoreView {
    pub names: Seq<Seq<char>>,
    pub time: Seq<u64>,
    pub absolute_time: Seq<u64>,
    pub dataset: Seq<Seq<Seq<char>>>,
    pub raw_traffic: Seq<PacketView>,
}

impl View for DataContainer {
    type V = StoreView;

    open spec fn view(&self) -> StoreView {
        StoreView {
            names: strings_view(self.names@),
            time: self.time@,
            absolute_time: self.absolute_time@,
            dataset: self.dataset@.map_values(|c: Vec<String>| strings_view(c@)),
            raw_traffic: self.raw_traffic@.map_values(|p: Packet| p@),
        }
    }
}

impl StoreView {
    /// An empty store.
    pub open spec fn empty() -> StoreView {
        StoreView {
            names: Seq::empty(),
            time: Seq::empty(),
            absolute_time: Seq::empty(),
            dataset: Seq::empty(),
            raw_traffic: Seq::empty(),
        }
    }

    /// Every channel runs in step with the timestamp sequences.
    pub open spec fn aligned(self) -> bool {
        &&& self.absolute_time.len() == self.time.len()
        &&& forall|i: int|
            0 <= i < self.dataset.len() ==> (#[trigger] self.dataset[i]).len() == self.time.len()
    }
}

impl DataContainer {
    /// Builds an empty store.
    pub fn new() -> (r: DataContainer)
        ensures
            r@ == StoreView::empty(),
    {
        let r = DataContainer {
            names: Vec::new(),
            time: Vec::new(),
            absolute_time: Vec::new(),
            dataset: Vec::new(),
            raw_traffic: Vec::new(),
        };
        proof {
            assert(r@ =~~= StoreView::empty());
        }
        r
    }
}

impl Default for DataContainer {
    /// The store a fresh session starts from.
    fn default() -> (r: DataContainer)
        ensures
            r@ == StoreView::empty(),
    {
        DataContainer::new()
    }
}

/// The sliding window of a sequence: the whole of it while it fits the
/// capacity, else its last `cap` elements.
pub open spec fn window<T>(s: Seq<T>, cap: nat) -> Seq<T> {
    if s.len() <= cap {
        s
    } else {
        s.skip(s.len() - cap)
    }
}

/// Discards the oldest elements until no more than `cap` remain.
#[verifier::loop_isolation(false)]
pub fn evict_oldest<T>(v: &mut Vec<T>, cap: usize)
    ensures
        final(v)@ == window(old(v)@, cap as nat),
{
    let ghost orig = v@;
    while v.len() > cap
        invariant
            v@ =~= orig.skip(orig.len() - v@.len()),
            v@.len() <= orig.len(),
            v@.len() >= cap || v@.len() == orig.len(),
        decreases v.len(),
    {
        let ghost before = v@;
        v.remove(0);
        proof {
            assert(v@ =~= before.skip(1));
            assert(v@ =~= orig.skip(orig.len() - v@.len()));
        }
    }
    proof {
        if orig.len() <= cap {
            assert(orig.skip(0) =~= orig);
        }
    }
}

/// Mapping each element commutes with pushing one.
pub proof fn lemma_map_push<A, B>(v: Seq<A>, f: spec_fn(A) -> B, e: A)
    ensures
        v.push(e).map_values(f) =~= v.map_values(f).push(f(e)),
{
}

/// Mapping each element commutes with taking the sliding window.
pub proof fn lemma_window_map<A, B>(v: Seq<A>, f: spec_fn(A) -> B, cap: nat)
    ensures
        window(v, cap).map_values(f) =~= window(v.map_values(f), cap),
{
    if v.len() > cap {
        assert forall|i: int| 0 <= i < cap implies window(v, cap).map_values(f)[i] == window(
            v.map_values(f),
            cap,
        )[i] by {
            assert(window(v, cap)[i] == v[v.len() - cap + i]);
        }
    }
}

/// The decimal digit characters, indexed by value.
pub open spec fn digit_char(d: int) -> char {
    "0123456789"@[d]
}

/// The decimal writing of a number.
pub open spec fn dec_str(n: nat) -> Seq<char>
    decreases n,
{
    if n < 10 {
        seq![digit_char(n as int)]
    } else {
        dec_str(n / 10).push(digit_char((n % 10) as int))
    }
}

/// The default label of one channel.
pub open spec fn column_name(i: nat) -> Seq<char> {
    "Column "@ + dec_str(i)
}

/// The default labels of `n` channels.
pub open spec fn default_names(n: nat) -> Seq<Seq<char>> {
    Seq::new(n, |i: int| column_name(i as nat))
}

/// Writes a number in decimal.
pub fn dec_string(n: usize) -> (s: String)
    ensures
        s@ == dec_str(n as nat),
    decreases n,
{
    let digits = "0123456789";
    proof {
        reveal_strlit("0123456789");
    }
    if n < 10 {
        let piece = digits.substring_char(n, n + 1);
        proof {
            assert(piece@ =~= seq![digit_char(n as int)]);
        }
        String::from_str(piece)
    } else {
        let mut s = dec_string(n / 10);
        let piece = digits.substring_char(n % 10, n % 10 + 1);
        proof {
            assert(piece@ =~= seq![digit_char((n % 10) as int)]);
        }
        s.append(piece);
        proof {
            assert(s@ =~= dec_str(n as nat));
        }
        s
    }
}

/// Builds the default channel labels.
#[verifier::loop_isolation(false)]
pub fn make_default_names(n: usize) -> (r: Vec<String>)
    ensures
        strings_view(r@) == default_names(n as nat),
{
    let mut out: Vec<String> = Vec::new();
    let mut i: usize = 0;
    while i < n
        invariant
            0 <= i <= n,
            strings_view(out@) =~= default_names(i as nat),
        decreases n - i,
    {
        let mut name = String::from_str("Column ");
        let num = dec_string(i);
        name.append(num.as_str());
        proof {
            assert(name@ == column_name(i as nat));
            assert(strings_view(out@.push(name)) =~= strings_view(out@).push(name@));
            assert(default_names(i as nat).push(column_name(i as nat)) =~= default_names(
                (i + 1) as nat,
            ));
        }
        out.push(name);
        i = i + 1;
    }
    out
}

} // verus!
