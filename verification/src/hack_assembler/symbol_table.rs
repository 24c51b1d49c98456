use vstd::hash_map::StringHashMap;
use vstd::prelude::*;

verus! {

/// The largest address of the Hack machine: addresses have 15 bits.
pub const ADDR_MAX: u16 = 0x7fff;

/// An address of the Hack machine.
#[derive(Debug, Clone, Copy)]
pub struct Addr(u16);

impl View for Addr {
    type V = u16;

    closed spec fn view(&self) -> u16 {
        self.0
    }
}

impl Addr {
    #[verifier::type_invariant]
    closed spec fn fits(self) -> bool {
        self.0 <= ADDR_MAX
    }

    /// An address of the given value, which must fit in 15 bits; `u16::from`
    /// gives the value back.
    pub fn new(value: u16) -> (r: Self)
        requires
            value <= ADDR_MAX,
        ensures
            r@ == value,
            <u16 as vstd::std_specs::convert::FromSpec<Addr>>::from_spec(r) == value,
    {
        Self(value)
    }

    /// The value of the address.
    pub fn value(self) -> (r: u16)
        ensures
            r == self@,
            r <= ADDR_MAX,
    {
        proof {
            use_type_invariant(&self);
        }
        self.0
    }
}

impl From<Addr> for u16 {
    fn from(item: Addr) -> (r: u16) {
        item.value()
    }
}

impl vstd::std_specs::convert::FromSpecImpl<Addr> for u16 {
    open spec fn obeys_from_spec() -> bool {
        true
    }

    open spec fn from_spec(v: Addr) -> u16 {
        v@
    }
}

/// The map that `HashMap::from` builds from a list of pairs: a later pair for
/// a key replaces an earlier one.
pub open spec fn map_of_pairs(pairs: Seq<(Seq<char>, u16)>) -> Map<Seq<char>, u16>
    decreases pairs.len(),
{
    if pairs.len() == 0 {
        Map::empty()
    } else {
        map_of_pairs(pairs.drop_last()).insert(pairs.last().0, pairs.last().1)
    }
}

/// The plain value of a list of symbols and their addresses.
pub open spec fn pairs_view(pairs: Seq<(String, Addr)>) -> Seq<(Seq<char>, u16)> {
    pairs.map_values(|p: (String, Addr)| (p.0@, p.1@))
}

/// The symbols of an assembly program and their addresses, and the address
/// that the next variable gets.
pub struct SymbolTable {
    table: StringHashMap<Addr>,
    var_memory_point: Addr,
}

impl SymbolTable {
    /// Each symbol and its address.
    pub closed spec fn symbols(&self) -> Map<Seq<char>, u16> {
        self.table@.map_values(|a: Addr| a@)
    }

    /// The address that the next new variable gets.
    pub closed spec fn next_var(&self) -> u16 {
        self.var_memory_point@
    }

    /// A table of the given symbols, whose variables start at `var_memory_base`.
    pub fn new<const N: usize>(init: [(String, Addr); N], var_memory_base: Addr) -> (r: Self)
        ensures
            r.symbols() == map_of_pairs(pairs_view(init@)),
            r.next_var() == var_memory_base@,
    {
        let mut table: StringHashMap<Addr> = StringHashMap::new();
        let mut i: usize = 0;
        while i < N
            invariant
                i <= N,
                N == init@.len(),
                table@.map_values(|a: Addr| a@) == map_of_pairs(pairs_view(init@.take(i as int))),
            decreases N - i,
        {
            let pair: &(String, Addr) = &init[i];
            let name: String = pair.0.clone();
            table.insert(name, pair.1);
            i = i + 1;
            assert(pairs_view(init@.take(i as int)).drop_last() == pairs_view(
                init@.take((i - 1) as int),
            ));
            assert(table@.map_values(|a: Addr| a@) == map_of_pairs(
                pairs_view(init@.take((i - 1) as int)),
            ).insert(pair.0@, pair.1@));
        }
        assert(init@.take(N as int) == init@);
        Self { table, var_memory_point: var_memory_base }
    }

    /// The address that the next new variable gets.
    pub fn next_var_addr(&self) -> (r: Addr)
        ensures
            r@ == self.next_var(),
    {
        self.var_memory_point
    }

    /// Gives `name` the address `addr`, unless the table holds `name` already.
    pub fn set_label(&mut self, name: String, addr: Addr)
        ensures
            final(self).symbols() == (if old(self).symbols().contains_key(name@) {
                old(self).symbols()
            } else {
                old(self).symbols().insert(name@, addr@)
            }),
            final(self).next_var() == old(self).next_var(),
    {
        if !self.table.contains_key(name.as_str()) {
            self.table.insert(name, addr);
            assert(self.table@.map_values(|a: Addr| a@) == old(self).symbols().insert(
                name@,
                addr@,
            ));
        }
    }

    /// The address of `symbol`, if the table holds it.
    pub fn get_addr(&self, symbol: &str) -> (r: Option<&Addr>)
        ensures
            r is None <==> !self.symbols().contains_key(symbol@),
            r matches Some(a) ==> a@ == self.symbols()[symbol@],
    {
        self.table.get(symbol)
    }

    /// The address of `symbol`; a symbol that the table does not hold becomes
    /// a variable, at the next variable address.
    pub fn set_var_memory(&mut self, symbol: String) -> (r: &Addr)
        requires
            !old(self).symbols().contains_key(symbol@) ==> old(self).next_var() < ADDR_MAX,
        ensures
            old(self).symbols().contains_key(symbol@) ==> {
                &&& final(self).symbols() == old(self).symbols()
                &&& final(self).next_var() == old(self).next_var()
            },
            !old(self).symbols().contains_key(symbol@) ==> {
                &&& final(self).symbols() == old(self).symbols().insert(
                    symbol@,
                    old(self).next_var(),
                )
                &&& final(self).next_var() == old(self).next_var() + 1
            },
            r@ == final(self).symbols()[symbol@],
    {
        if !self.table.contains_key(symbol.as_str()) {
            let cur_point: u16 = self.var_memory_point.value();
            self.var_memory_point = Addr::new(cur_point + 1);
            let key: String = symbol.clone();
            self.table.insert(key, Addr::new(cur_point));
            assert(self.table@.map_values(|a: Addr| a@) == old(self).symbols().insert(
                symbol@,
                cur_point,
            ));
        }
        let r: Option<&Addr> = self.table.get(symbol.as_str());
        r.unwrap()
    }
}

} // verus!
