use vstd::prelude::*;

verus! {

/// The derivation chain a wallet script belongs to.
#[derive(Debug, Clone, Copy, PartialEq, Eq, Structural)]
pub enum ScriptType {
    /// Receiving addresses
    External,
    /// Change addresses
    Internal,
}

/// The output an input spends, as far as the wallet database knows it.
#[derive(Debug, Clone, Copy, PartialEq, Eq, Structural)]
pub struct PreviousOutput {
    /// Value of the spent output, in satoshi
    pub value: u64,
    /// Whether the spent output's script belongs to the wallet
    pub is_mine: bool,
}

/// An output of a transaction, with the wallet's derivation path for its
/// script when it has one.
#[derive(Debug, Clone, Copy)]
pub struct OutputView {
    /// Value of the output, in satoshi
    pub value: u64,
    /// Script type and child index the wallet derives the script from
    pub path: Option<(ScriptType, u32)>,
}

/// What the wallet database tells of a transaction: for each input the
/// previous output when it is known, and each output.
#[derive(Debug, Clone)]
pub struct TxView {
    pub inputs: Vec<Option<PreviousOutput>>,
    pub outputs: Vec<OutputView>,
}

/// What processing one transaction changes in the wallet.
#[derive(Debug, Clone)]
pub struct TxEffect {
    /// Inputs, by index, whose spent output is the wallet's: that UTXO goes
    pub spent_inputs: Vec<usize>,
    /// Outputs, by index, that pay the wallet: each becomes a UTXO
    pub new_utxos: Vec<usize>,
    /// Sum of the outputs that pay the wallet
    pub received: u64,
    /// Sum of the wallet's outputs that the inputs spend
    pub sent: u64,
    /// Inputs known to the database minus all outputs, or zero
    pub fees: u64,
    /// Whether the transaction concerns the wallet and is stored
    pub record: bool,
}

/// Sum of the values of the known previous outputs among the first `n` inputs.
pub open spec fn known_inputs_sum(inputs: Seq<Option<PreviousOutput>>, n: int) -> int
    decreases n,
{
    if n <= 0 {
        0
    } else {
        known_inputs_sum(inputs, n - 1) + match inputs[n - 1] {
            Some(p) => p.value as int,
            None => 0,
        }
    }
}

/// Sum of the values of the wallet's previous outputs among the first `n` inputs.
pub open spec fn mine_inputs_sum(inputs: Seq<Option<PreviousOutput>>, n: int) -> int
    decreases n,
{
    if n <= 0 {
        0
    } else {
        mine_inputs_sum(inputs, n - 1) + match inputs[n - 1] {
            Some(p) => if p.is_mine {
                p.value as int
            } else {
                0
            },
            None => 0,
        }
    }
}

/// Indices, ascending, of the first `n` inputs that spend a wallet output.
pub open spec fn mine_inputs(inputs: Seq<Option<PreviousOutput>>, n: int) -> Seq<usize>
    decreases n,
{
    if n <= 0 {
        seq![]
    } else {
        mine_inputs(inputs, n - 1) + match inputs[n - 1] {
            Some(p) => if p.is_mine {
                seq![(n - 1) as usize]
            } else {
                seq![]
            },
            None => seq![],
        }
    }
}

/// Sum of the values of the first `n` outputs.
pub open spec fn outputs_sum(outputs: Seq<OutputView>, n: int) -> int
    decreases n,
{
    if n <= 0 {
        0
    } else {
        outputs_sum(outputs, n - 1) + outputs[n - 1].value
    }
}

/// Sum of the values of the first `n` outputs that pay the wallet.
pub open spec fn ours_outputs_sum(outputs: Seq<OutputView>, n: int) -> int
    decreases n,
{
    if n <= 0 {
        0
    } else {
        ours_outputs_sum(outputs, n - 1) + if outputs[n - 1].path is Some {
            outputs[n - 1].value as int
        } else {
            0
        }
    }
}

/// Indices, ascending, of the first `n` outputs that pay the wallet.
pub open spec fn ours_outputs(outputs: Seq<OutputView>, n: int) -> Seq<usize>
    decreases n,
{
    if n <= 0 {
        seq![]
    } else {
        ours_outputs(outputs, n - 1) + if outputs[n - 1].path is Some {
            seq![(n - 1) as usize]
        } else {
            seq![]
        }
    }
}

/// The larger of a running maximum and a child index.
pub open spec fn raise_max(current: Option<u32>, child: u32) -> Option<u32> {
    match current {
        Some(m) => if child > m {
            Some(child)
        } else {
            Some(m)
        },
        None => Some(child),
    }
}

/// The running maximum child index of `st` after the first `n` outputs.
pub open spec fn max_child(
    outputs: Seq<OutputView>,
    n: int,
    st: ScriptType,
    start: Option<u32>,
) -> Option<u32>
    decreases n,
{
    if n <= 0 {
        start
    } else {
        let prev = max_child(outputs, n - 1, st, start);
        match outputs[n - 1].path {
            Some((t, child)) => if t == st {
                raise_max(prev, child)
            } else {
                prev
            },
            None => prev,
        }
    }
}

/// Whether the sums of a transaction's known inputs and of its outputs fit
/// the 64-bit amounts that the wallet stores.
pub open spec fn amounts_fit(tx: TxView) -> bool {
    &&& known_inputs_sum(tx.inputs@, tx.inputs@.len() as int) <= u64::MAX
    &&& outputs_sum(tx.outputs@, tx.outputs@.len() as int) <= u64::MAX
}

/// The effect that processing `tx` has on the wallet.
pub open spec fn tx_effect_spec(tx: TxView, e: TxEffect) -> bool {
    let ni = tx.inputs@.len() as int;
    let no = tx.outputs@.len() as int;
    let ins = known_inputs_sum(tx.inputs@, ni);
    let outs = outputs_sum(tx.outputs@, no);
    &&& e.spent_inputs@ == mine_inputs(tx.inputs@, ni)
    &&& e.new_utxos@ == ours_outputs(tx.outputs@, no)
    &&& e.sent == mine_inputs_sum(tx.inputs@, ni)
    &&& e.received == ours_outputs_sum(tx.outputs@, no)
    &&& e.fees == if ins >= outs {
        ins - outs
    } else {
        0
    }
    &&& e.record == (e.received > 0 || e.sent > 0)
}

proof fn lemma_input_sums(inputs: Seq<Option<PreviousOutput>>, i: int, n: int)
    requires
        0 <= i <= n,
    ensures
        0 <= mine_inputs_sum(inputs, i) <= known_inputs_sum(inputs, i) <= known_inputs_sum(
            inputs,
            n,
        ),
    decreases n,
{
    if n > i {
        lemma_input_sums(inputs, i, n - 1);
    } else if i > 0 {
        lemma_input_sums(inputs, i - 1, i - 1);
    }
}

proof fn lemma_output_sums(outputs: Seq<OutputView>, i: int, n: int)
    requires
        0 <= i <= n,
    ensures
        0 <= ours_outputs_sum(outputs, i) <= outputs_sum(outputs, i) <= outputs_sum(outputs, n),
    decreases n,
{
    if n > i {
        lemma_output_sums(outputs, i, n - 1);
    } else if i > 0 {
        lemma_output_sums(outputs, i - 1, i - 1);
    }
}

/// Processes one transaction: finds the inputs that spend from a wallet
/// UTXO and the outputs that pay a script the wallet can derive, sums what
/// it receives, sends and pays in fees, and raises the maximum child index
/// seen for each script type.
pub fn process_tx(
    tx: &TxView,
    internal_max_deriv: &mut Option<u32>,
    external_max_deriv: &mut Option<u32>,
) -> (effect: TxEffect)
    requires
        amounts_fit(*tx),
    ensures
        tx_effect_spec(*tx, effect),
        *final(internal_max_deriv) == max_child(
            tx.outputs@,
            tx.outputs@.len() as int,
            ScriptType::Internal,
            *old(internal_max_deriv),
        ),
        *final(external_max_deriv) == max_child(
            tx.outputs@,
            tx.outputs@.len() as int,
            ScriptType::External,
            *old(external_max_deriv),
        ),
{
    let mut incoming: u64 = 0;
    let mut outgoing: u64 = 0;
    let mut in_total: u64 = 0;
    let mut out_total: u64 = 0;
    let mut spent_inputs: Vec<usize> = Vec::new();
    let mut new_utxos: Vec<usize> = Vec::new();

    let ni = tx.inputs.len();
    let mut i: usize = 0;
    while i < ni
        invariant
            ni == tx.inputs@.len(),
            i <= ni,
            amounts_fit(*tx),
            in_total == known_inputs_sum(tx.inputs@, i as int),
            outgoing == mine_inputs_sum(tx.inputs@, i as int),
            spent_inputs@ == mine_inputs(tx.inputs@, i as int),
        decreases ni - i,
    {
        proof {
            lemma_input_sums(tx.inputs@, i + 1, ni as int);
        }
        if let Some(prev) = tx.inputs[i] {
            in_total = in_total + prev.value;
            if prev.is_mine {
                outgoing = outgoing + prev.value;
                spent_inputs.push(i);
            }
        }
        i = i + 1;
    }

    let no = tx.outputs.len();
    let ghost int_start = *internal_max_deriv;
    let ghost ext_start = *external_max_deriv;
    let mut j: usize = 0;
    while j < no
        invariant
            no == tx.outputs@.len(),
            j <= no,
            amounts_fit(*tx),
            out_total == outputs_sum(tx.outputs@, j as int),
            incoming == ours_outputs_sum(tx.outputs@, j as int),
            new_utxos@ == ours_outputs(tx.outputs@, j as int),
            *internal_max_deriv == max_child(tx.outputs@, j as int, ScriptType::Internal, int_start),
            *external_max_deriv == max_child(tx.outputs@, j as int, ScriptType::External, ext_start),
        decreases no - j,
    {
        proof {
            lemma_output_sums(tx.outputs@, j + 1, no as int);
        }
        let output = tx.outputs[j];
        out_total = out_total + output.value;
        if let Some((script_type, child)) = output.path {
            new_utxos.push(j);
            incoming = incoming + output.value;
            match script_type {
                ScriptType::Internal => {
                    let raise = match *internal_max_deriv {
                        Some(m) => child > m,
                        None => true,
                    };
                    if raise {
                        *internal_max_deriv = Some(child);
                    }
                },
                ScriptType::External => {
                    let raise = match *external_max_deriv {
                        Some(m) => child > m,
                        None => true,
                    };
                    if raise {
                        *external_max_deriv = Some(child);
                    }
                },
            }
        }
        j = j + 1;
    }

    let fees = if in_total >= out_total {
        in_total - out_total
    } else {
        0
    };
    TxEffect {
        spent_inputs,
        new_utxos,
        received: incoming,
        sent: outgoing,
        fees,
        record: incoming > 0 || outgoing > 0,
    }
}

/// The index to store for a script type after a sync, where it must change:
/// one past the highest child seen, where that exceeds the stored index
/// (an absent index counts as zero).
pub open spec fn next_index_spec(current: Option<u32>, max_deriv: Option<u32>) -> Option<u32> {
    let first_new: int = match max_deriv {
        Some(m) => m + 1,
        None => 0,
    };
    let stored: int = match current {
        Some(c) => c as int,
        None => 0,
    };
    if first_new > stored {
        Some(first_new as u32)
    } else {
        None
    }
}

/// The index stored for a script type once the update is applied.
pub open spec fn last_index_after(current: Option<u32>, max_deriv: Option<u32>) -> int {
    match next_index_spec(current, max_deriv) {
        Some(v) => v as int,
        None => match current {
            Some(c) => c as int,
            None => 0,
        },
    }
}

/// Computes the new last derivation index of a script type, or `None` where
/// the stored one already lies beyond every child seen.
pub fn next_last_index(current: Option<u32>, max_deriv: Option<u32>) -> (r: Option<u32>)
    requires
        max_deriv matches Some(m) ==> m < u32::MAX,
    ensures
        r == next_index_spec(current, max_deriv),
{
    let first_new: u32 = match max_deriv {
        Some(m) => m + 1,
        None => 0,
    };
    let stored: u32 = match current {
        Some(c) => c,
        None => 0,
    };
    if first_new > stored {
        Some(first_new)
    } else {
        None
    }
}

/// Whether a stored transaction is dropped before a rescan from
/// `last_synced_block`: unconfirmed ones and those at or above it.
pub open spec fn must_drop(height: Option<u32>, last_synced_block: int) -> bool {
    match height {
        Some(h) => h >= last_synced_block,
        None => true,
    }
}

/// Indices, ascending, of the first `n` heights whose transaction is dropped.
pub open spec fn dropped(heights: Seq<Option<u32>>, n: int, last_synced_block: int) -> Seq<usize>
    decreases n,
{
    if n <= 0 {
        seq![]
    } else {
        dropped(heights, n - 1, last_synced_block) + if must_drop(
            heights[n - 1],
            last_synced_block,
        ) {
            seq![(n - 1) as usize]
        } else {
            seq![]
        }
    }
}

/// Selects, by index, the stored transactions to delete before blocks are
/// replayed: every one whose height is absent or not below
/// `last_synced_block`.
pub fn txs_to_drop(heights: &Vec<Option<u32>>, last_synced_block: usize) -> (r: Vec<usize>)
    ensures
        r@ == dropped(heights@, heights@.len() as int, last_synced_block as int),
{
    let mut r: Vec<usize> = Vec::new();
    let n = heights.len();
    let mut i: usize = 0;
    while i < n
        invariant
            n == heights@.len(),
            i <= n,
            r@ == dropped(heights@, i as int, last_synced_block as int),
        decreases n - i,
    {
        let drop = match heights[i] {
            Some(h) => h as usize >= last_synced_block,
            None => true,
        };
        if drop {
            r.push(i);
        }
        i = i + 1;
    }
    r
}

proof fn lemma_dropped_members(heights: Seq<Option<u32>>, n: int, last: int)
    requires
        0 <= n <= heights.len(),
    ensures
        forall|k: int| 0 <= k < n && must_drop(heights[k], last) ==> dropped(heights, n, last).contains(k as usize),
    decreases n,
{
    if n > 0 {
        lemma_dropped_members(heights, n - 1, last);
        let prev = dropped(heights, n - 1, last);
        let cur = dropped(heights, n, last);
        assert forall|k: int| 0 <= k < n && must_drop(heights[k], last) implies cur.contains(k as usize) by {
            if k < n - 1 {
                let w = choose|w: int| 0 <= w < prev.len() && prev[w] == k as usize;
                assert(cur[w] == prev[w]);
            } else {
                assert(cur[cur.len() - 1] == k as usize);
            }
        }
    }
}

/// A block downloaded at height `h` forces a rescan from `h`: once
/// `last_synced_block` has been lowered to `h` or below, as fetching it does,
/// every stored transaction at height `h` or above is selected for deletion.
pub proof fn lemma_download_rescans_from_its_height(
    heights: Seq<Option<u32>>,
    h: usize,
    last_before: usize,
    last_after: usize,
)
    requires
        last_after <= if h < last_before {
            h
        } else {
            last_before
        },
    ensures
        forall|k: int|
            #![trigger heights[k]]
            0 <= k < heights.len() && (heights[k] matches Some(x) && x >= h) ==> dropped(
                heights,
                heights.len() as int,
                last_after as int,
            ).contains(k as usize),
{
    lemma_dropped_members(heights, heights.len() as int, last_after as int);
}

/// Whether an output pays the wallet script of `st` with child index `child`.
pub open spec fn pays(o: OutputView, st: ScriptType, child: u32) -> bool {
    o.path == Some((st, child))
}

/// Whether some output of the transactions pays child `child` of `st`.
pub open spec fn observed(txs: Seq<TxView>, st: ScriptType, child: u32) -> bool {
    exists|k: int, j: int|
        0 <= k < txs.len() && 0 <= j < txs[k].outputs@.len() && #[trigger] pays(
            txs[k].outputs@[j],
            st,
            child,
        )
}

/// The highest child index of `st` seen over the first `n` transactions,
/// processed in order.
pub open spec fn scan_max(txs: Seq<TxView>, n: int, st: ScriptType) -> Option<u32>
    decreases n,
{
    if n <= 0 {
        None
    } else {
        max_child(txs[n - 1].outputs@, txs[n - 1].outputs@.len() as int, st, scan_max(txs, n - 1, st))
    }
}

proof fn lemma_max_child(outputs: Seq<OutputView>, n: int, st: ScriptType, start: Option<u32>)
    requires
        0 <= n <= outputs.len(),
    ensures
        start matches Some(s) ==> (max_child(outputs, n, st, start) matches Some(m) && m >= s),
        forall|j: int, c: u32|
            0 <= j < n && #[trigger] pays(outputs[j], st, c) ==> (max_child(outputs, n, st, start) matches Some(m) && m >= c),
        max_child(outputs, n, st, start) matches Some(m) ==> (start == Some(m) || exists|j: int|
            0 <= j < n && #[trigger] pays(outputs[j], st, m)),
    decreases n,
{
    if n > 0 {
        lemma_max_child(outputs, n - 1, st, start);
        let r = max_child(outputs, n, st, start);
        let prev = max_child(outputs, n - 1, st, start);
        assert forall|j: int, c: u32|
            0 <= j < n && #[trigger] pays(outputs[j], st, c) implies (r matches Some(m) && m >= c) by {
            if j == n - 1 {
                assert(outputs[n - 1].path == Some((st, c)));
            }
        }
        if let Some(m) = r {
            if prev != Some(m) {
                assert(pays(outputs[n - 1], st, m));
            }
        }
    }
}

proof fn lemma_scan_max(txs: Seq<TxView>, n: int, st: ScriptType)
    requires
        0 <= n <= txs.len(),
    ensures
        forall|k: int, j: int, c: u32|
            0 <= k < n && 0 <= j < txs[k].outputs@.len() && #[trigger] pays(txs[k].outputs@[j], st, c)
                ==> (scan_max(txs, n, st) matches Some(m) && m >= c),
        scan_max(txs, n, st) matches Some(m) ==> observed(txs, st, m),
    decreases n,
{
    if n > 0 {
        lemma_scan_max(txs, n - 1, st);
        let outs = txs[n - 1].outputs@;
        let prev = scan_max(txs, n - 1, st);
        lemma_max_child(outs, outs.len() as int, st, prev);
        let r = scan_max(txs, n, st);
        if let Some(m) = r {
            if prev != Some(m) {
                let j = choose|j: int| 0 <= j < outs.len() && #[trigger] pays(outs[j], st, m);
                assert(pays(txs[n - 1].outputs@[j], st, m));
            }
        }
    }
}

/// After the transactions of a sync are processed in order and the last
/// index of `st` is updated, that index lies beyond every child index of `st`
/// that the transactions pay.
pub proof fn lemma_last_index_covers_observed(
    txs: Seq<TxView>,
    st: ScriptType,
    current: Option<u32>,
    child: u32,
)
    requires
        observed(txs, st, child),
        forall|c: u32| #[trigger] observed(txs, st, c) ==> c < u32::MAX,
    ensures
        last_index_after(current, scan_max(txs, txs.len() as int, st)) >= child + 1,
{
    lemma_scan_max(txs, txs.len() as int, st);
    let (k, j) = choose|k: int, j: int|
        0 <= k < txs.len() && 0 <= j < txs[k].outputs@.len() && #[trigger] pays(txs[k].outputs@[j], st, child);
    assert(pays(txs[k].outputs@[j], st, child));
}

} // verus!
