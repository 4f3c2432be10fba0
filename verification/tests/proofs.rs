use database_commitment::circuit::{
    CellAssignment, CopyColumn, DatabaseCommitCircuit, DatabaseCommitConfig, ExposedCell,
    LookupPair,
};
use database_commitment::commit::{fixed_commitments_match, standalone_commitments, IpaParams};
use database_commitment::dataset::{dataset_fields, load_dataset, DatasetRecord};
use database_commitment::encode::MAX_COLUMNS;
use database_commitment::field::FieldElement;
use halo2_proofs::arithmetic::CurveAffine;
use halo2_proofs::circuit::{Layouter, SimpleFloorPlanner, Value};
use halo2_proofs::dev::MockProver;
use halo2_proofs::pasta::group::ff::PrimeField;
use halo2_proofs::pasta::group::GroupEncoding;
use halo2_proofs::pasta::{EqAffine, Fp, Fq};
use halo2_proofs::plonk::{
    create_proof, keygen_pk, keygen_vk, verify_proof, Advice, Circuit, Column, ConstraintSystem,
    Error, Fixed, Instance, Selector, SingleVerifier, VerifyingKey,
};
use halo2_proofs::poly::commitment::Params;
use halo2_proofs::poly::Rotation;
use halo2_proofs::transcript::{Blake2bRead, Blake2bWrite, Challenge255};
use rand::rngs::OsRng;

const REGION: [&str; 5] = [
    "0|AFRICA|lar deposits. blithely final packages cajole. regular waters are final requests. regular accounts are according to |",
    "1|AMERICA|hs use ironic, even requests. s|",
    "2|ASIA|ges. thinly even pinto beans ca|",
    "3|EUROPE|ly final courts cajole furiously final excuse|",
    "4|MIDDLE EAST|uickly special accounts cajole carefully blithely close requests. carefully final asymptotes haggle furiousl|",
];

const NATION: [&str; 25] = [
    "0|ALGERIA|0| haggle. carefully final deposits detect slyly agai|",
    "1|ARGENTINA|1|al foxes promise slyly according to the regular accounts. bold requests alon|",
    "2|BRAZIL|1|y alongside of the pending deposits. carefully special packages are about the ironic forges. slyly special |",
    "3|CANADA|1|eas hang ironic, silent packages. slyly regular packages are furiously over the tithes. fluffily bold|",
    "4|EGYPT|4|y above the carefully unusual theodolites. final dugouts are quickly across the furiously regular d|",
    "5|ETHIOPIA|0|ven packages wake quickly. regu|",
    "6|FRANCE|3|refully final requests. regular, ironi|",
    "7|GERMANY|3|l platelets. regular accounts x-ray: unusual, regular acco|",
    "8|INDIA|2|ss excuses cajole slyly across the packages. deposits print aroun|",
    "9|INDONESIA|2| slyly express asymptotes. regular deposits haggle slyly. carefully ironic hockey players sleep blithely. carefull|",
    "10|IRAN|4|efully alongside of the slyly final dependencies. |",
    "11|IRAQ|4|nic deposits boost atop the quickly final requests? quickly regula|",
    "12|JAPAN|2|ously. final, express gifts cajole a|",
    "13|JORDAN|4|ic deposits are blithely about the carefully regular pa|",
    "14|KENYA|0| pending excuses haggle furiously deposits. pending, express pinto beans wake fluffily past t|",
    "15|MOROCCO|0|rns. blithely bold courts among the closely regular packages use furiously bold platelets?|",
    "16|MOZAMBIQUE|0|s. ironic, unusual asymptotes wake blithely r|",
    "17|PERU|1|platelets. blithely pending dependencies use fluffily across the even pinto beans. carefully silent accoun|",
    "18|CHINA|2|c dependencies. furiously express notornis sleep slyly regular accounts. ideas sleep. depos|",
    "19|ROMANIA|3|ular asymptotes are about the furious multipliers. express dependencies nag above the ironically ironic account|",
    "20|SAUDI ARABIA|4|ts. silent requests haggle. closely express packages sleep across the blithely|",
    "21|VIETNAM|2|hely enticingly express accounts. even, final |",
    "22|RUSSIA|3| requests against the platelets use never according to the quickly regular pint|",
    "23|UNITED KINGDOM|3|eans boost carefully special requests. accounts are. carefull|",
    "24|UNITED STATES|1|y final packages. slow foxes cajole quickly. quickly silent platelets breach ironic accounts. unusual pinto be|",
];

const CUSTOMER: [&str; 3] = [
    "1|Customer#000000001|IVhzIApeRb ot,c,E|15|25-989-741-2988|711.56|BUILDING|to the even, regular platelets. regular, ironic epitaphs nag e|",
    "2|Customer#000000002|XSTf4,NCwDVaWNe6tEgvwfmRchLXak|13|23-768-687-3665|121.65|AUTOMOBILE|l accounts. blithely ironic theodolites integrate boldly: caref|",
    "3|Customer#000000003|MG9kdTD2WBHm|1|11-719-748-3364|-7498.12|AUTOMOBILE| deposits eat slyly ironic, even instructions. express foxes detect slyly. blithely even accounts abov|",
];

fn load(name: &str, lines: &[&str]) -> DatasetRecord {
    let lines = lines.iter().map(|line| line.to_string()).collect::<Vec<_>>();
    let scaled = dataset_fields(&lines)
        .iter()
        .map(|row| {
            row.iter()
                .map(|field| field.parse::<f64>().ok().map(|v| (v * 1000.0).round() as i128))
                .collect()
        })
        .collect::<Vec<_>>();
    load_dataset("src/data", name, &lines, &scaled)
}

fn to_fp(element: &FieldElement) -> Fp {
    Fp::from_repr(element.to_repr()).unwrap()
}

fn to_fps(row: &[FieldElement]) -> Vec<Fp> {
    row.iter().map(to_fp).collect()
}

#[derive(Clone, Debug)]
struct LaidOutConfig {
    plan: DatabaseCommitConfig,
    q_lookup: Selector,
    witness_cols: Vec<Column<Advice>>,
    fixed_cols: Vec<Column<Fixed>>,
    instance: Column<Instance>,
}

struct LaidOutCircuit(DatabaseCommitCircuit);

impl Circuit<Fp> for LaidOutCircuit {
    type Config = LaidOutConfig;
    type FloorPlanner = SimpleFloorPlanner;

    fn without_witnesses(&self) -> Self {
        LaidOutCircuit(self.0.without_witnesses())
    }

    fn configure(meta: &mut ConstraintSystem<Fp>) -> LaidOutConfig {
        let plan = DatabaseCommitCircuit::configure();
        let q_lookup = meta.complex_selector();
        let witness_cols = plan.witness_cols.iter().map(|_| meta.advice_column()).collect::<Vec<_>>();
        let tables = (0..=plan.tag_col).map(|_| meta.lookup_table_column()).collect::<Vec<_>>();
        let mut numbering = ConstraintSystem::<Fp>::default();
        let fixed_cols = tables.iter().map(|_| numbering.fixed_column()).collect::<Vec<_>>();
        for (table, fixed) in tables.iter().zip(&fixed_cols) {
            assert_eq!(format!("{:?}", table), format!("TableColumn {{ inner: {:?} }}", fixed));
        }
        let instance = meta.instance_column();
        for column in &plan.equality {
            match column {
                CopyColumn::Advice(number) => meta.enable_equality(witness_cols[*number]),
                CopyColumn::Instance(_) => meta.enable_equality(instance),
            }
        }
        meta.lookup(|meta| {
            let q = meta.query_selector(q_lookup);
            let mut pairs = plan
                .lookup
                .iter()
                .map(|pair| {
                    let witness = meta.query_advice(witness_cols[pair.witness], Rotation::cur());
                    (q.clone() * witness, tables[pair.table])
                })
                .collect::<Vec<_>>();
            pairs.push((q, tables[plan.tag_col]));
            pairs
        });
        LaidOutConfig { plan, q_lookup, witness_cols, fixed_cols, instance }
    }

    fn synthesize(&self, config: LaidOutConfig, mut layouter: impl Layouter<Fp>) -> Result<(), Error> {
        let synthesis = self.0.synthesize(&config.plan);
        layouter.assign_region(
            || "table",
            |mut region| {
                for cell in synthesis.fixed.iter().chain(&synthesis.tags) {
                    let value = Value::known(to_fp(&cell.value));
                    region.assign_fixed(|| "table", config.fixed_cols[cell.column], cell.row, || value)?;
                }
                Ok(())
            },
        )?;
        let cells = layouter.assign_region(
            || "row",
            |mut region| {
                for row in &synthesis.selector_rows {
                    config.q_lookup.enable(&mut region, *row)?;
                }
                let mut cells = Vec::new();
                for cell in &synthesis.advice {
                    let value = Value::known(to_fp(&cell.value));
                    let column = config.witness_cols[cell.column];
                    cells.push(region.assign_advice(|| "row", column, cell.row, || value)?);
                }
                Ok(cells)
            },
        )?;
        for (exposed, cell) in synthesis.exposed.iter().zip(&cells) {
            layouter.constrain_instance(cell.cell(), config.instance, exposed.instance_row)?;
        }
        Ok(())
    }
}

fn accepted(dataset: &DatasetRecord, row: &[FieldElement], instance: &[FieldElement]) -> bool {
    let mut circuit = DatabaseCommitCircuit::for_dataset(dataset);
    circuit.membership_row = row.to_vec();
    let mock = MockProver::run(dataset.logrows, &LaidOutCircuit(circuit), vec![to_fps(instance)]).unwrap();
    mock.verify() == Ok(())
}

fn fq_from_hex(text: &str) -> Fq {
    let digits = text.trim_start_matches("0x");
    let mut repr = [0u8; 32];
    for i in 0..32 {
        repr[31 - i] = u8::from_str_radix(&digits[2 * i..2 * i + 2], 16).unwrap();
    }
    Fq::from_repr(repr).unwrap()
}

fn fixed_commitments(vk: &VerifyingKey<EqAffine>) -> Vec<[u8; 32]> {
    let text = format!("{:?}", vk.pinned());
    let list = text.split("fixed_commitments: [").nth(1).unwrap().split(']').next().unwrap();
    list.split("), (")
        .map(|point| {
            let (x, y) = point.trim_matches(|c| c == '(' || c == ')').split_once(", ").unwrap();
            EqAffine::from_xy(fq_from_hex(x), fq_from_hex(y)).unwrap().to_bytes()
        })
        .collect()
}

fn run_end_to_end_proof(dataset: &DatasetRecord) {
    let circuit = LaidOutCircuit(DatabaseCommitCircuit::for_dataset(dataset));
    let ipa = IpaParams::new(dataset.logrows);
    let params: Params<EqAffine> = Params::read(&mut ipa.encoding()).unwrap();
    let vk = keygen_vk(&params, &circuit).unwrap();
    let fixed = fixed_commitments(&vk);
    let expected = standalone_commitments(&ipa, &dataset.rows, dataset.logrows);
    assert!(fixed.len() > expected.len());
    assert!(fixed_commitments_match(&fixed, &expected));
    let pk = keygen_pk(&params, vk, &circuit).unwrap();
    let instance = to_fps(&dataset.membership_row);
    let mut transcript = Blake2bWrite::<_, EqAffine, Challenge255<_>>::init(vec![]);
    create_proof(&params, &pk, &[circuit], &[&[&instance]], OsRng, &mut transcript).unwrap();
    let proof = transcript.finalize();
    let mut transcript = Blake2bRead::<_, EqAffine, Challenge255<_>>::init(&proof[..]);
    let strategy = SingleVerifier::new(&params);
    assert!(verify_proof(&params, pk.get_vk(), strategy, &[&[&instance]], &mut transcript).is_ok());

    let other = to_fps(&dataset.rows[1]);
    let mut transcript = Blake2bRead::<_, EqAffine, Challenge255<_>>::init(&proof[..]);
    let strategy = SingleVerifier::new(&params);
    assert!(verify_proof(&params, pk.get_vk(), strategy, &[&[&other]], &mut transcript).is_err());
}

#[test]
fn database_commitment_membership_constraints_work_for_all_datasets() {
    for dataset in [
        load("customer.tbl", &CUSTOMER),
        load("nation.tbl", &NATION),
        load("region.cvs", &REGION),
    ] {
        assert!(
            dataset.width <= MAX_COLUMNS,
            "dataset {} at {} exceeds MAX_COLUMNS={}",
            dataset.name,
            dataset.path,
            MAX_COLUMNS
        );
        assert!(accepted(&dataset, &dataset.membership_row, &dataset.membership_row));
    }
}

#[test]
fn database_commitment_proof_roundtrip_for_nation_tbl() {
    let dataset = load("nation.tbl", &NATION);
    assert!(accepted(&dataset, &dataset.membership_row, &dataset.membership_row));
    run_end_to_end_proof(&dataset);
}

#[test]
fn every_row_of_the_table_is_accepted() {
    let dataset = load("region.cvs", &REGION);
    for row in &dataset.rows {
        assert!(accepted(&dataset, row, row));
    }
}

#[test]
fn a_row_outside_the_table_is_refused() {
    let dataset = load("region.cvs", &REGION);
    let mut row = dataset.rows[2].clone();
    row[0] = FieldElement::from_u64(77);
    assert!(!accepted(&dataset, &row, &row));
    let mut mixed = dataset.rows[2].clone();
    mixed[0] = dataset.rows[3][0];
    assert!(!accepted(&dataset, &mixed, &mixed));
}

#[test]
fn another_public_input_is_refused() {
    let dataset = load("region.cvs", &REGION);
    assert!(!accepted(&dataset, &dataset.rows[0], &dataset.rows[1]));
}

#[test]
fn the_padding_row_is_refused() {
    let zeros = vec![FieldElement::from_u64(0); MAX_COLUMNS];
    let dataset = load("region.cvs", &REGION);
    assert!(!accepted(&dataset, &zeros, &zeros));
    let single = load("t.tbl", &["1|"]);
    assert_eq!(single.logrows, 6);
    assert!(!accepted(&single, &zeros, &zeros));
    assert!(accepted(&single, &single.membership_row, &single.membership_row));
}

#[test]
fn a_row_of_zeros_in_the_table_is_accepted() {
    let zeros = vec![FieldElement::from_u64(0); MAX_COLUMNS];
    let dataset = load("t.tbl", &["1|", "0|"]);
    assert!(accepted(&dataset, &zeros, &zeros));
}

#[test]
fn a_full_circuit_still_has_padding() {
    let lines = (0..32).map(|i| format!("{}|x{}|", i + 1, i)).collect::<Vec<_>>();
    let dataset = load("full.tbl", &lines.iter().map(|l| l.as_str()).collect::<Vec<_>>());
    assert_eq!(dataset.logrows, 6);
    assert!(accepted(&dataset, &dataset.rows[31], &dataset.rows[31]));
}

#[test]
fn the_key_does_not_depend_on_the_witness() {
    let dataset = load("region.cvs", &REGION);
    let circuit = DatabaseCommitCircuit::for_dataset(&dataset);
    assert_eq!(circuit.dataset_name, "region.cvs");
    let blank = circuit.without_witnesses();
    assert_eq!(blank.dataset_name, "region.cvs");
    assert_eq!(blank.committed_rows, circuit.committed_rows);
    assert_eq!(blank.membership_row, vec![FieldElement::from_u64(0); MAX_COLUMNS]);
    let config = DatabaseCommitCircuit::configure();
    let a = circuit.synthesize(&config);
    let b = blank.synthesize(&config);
    assert_eq!(a.fixed, b.fixed);
    assert_eq!(a.tags, b.tags);
    assert_eq!(a.selector_rows, b.selector_rows);
    assert_eq!(a.exposed, b.exposed);
    assert_ne!(a.advice, b.advice);
}

#[test]
fn the_circuit_shape_is_fixed() {
    let config = DatabaseCommitCircuit::configure();
    assert_eq!(config.q_lookup, 0);
    assert_eq!(config.instance, 0);
    assert_eq!(config.witness_cols, (0..16).collect::<Vec<_>>());
    assert_eq!(config.table_cols, (0..16).collect::<Vec<_>>());
    assert_eq!(config.tag_col, 16);
    assert_eq!(config.equality.len(), 17);
    assert_eq!(config.equality[3], CopyColumn::Advice(3));
    assert_eq!(config.equality[16], CopyColumn::Instance(0));
    assert_eq!(config.lookup.len(), 16);
    assert_eq!(config.lookup[15], LookupPair { witness: 15, table: 15 });
}

#[test]
fn synthesis_goes_row_by_row() {
    let value = FieldElement::from_u64;
    let circuit = DatabaseCommitCircuit {
        dataset_name: "t".to_string(),
        committed_rows: vec![vec![value(1), value(2)], vec![value(3), value(4)]],
        membership_row: vec![value(3), value(4), value(5)],
    };
    let config = DatabaseCommitConfig {
        q_lookup: 0,
        witness_cols: vec![7, 8],
        table_cols: vec![5, 6],
        tag_col: 9,
        instance: 0,
        equality: vec![],
        lookup: vec![],
    };
    let synthesis = circuit.synthesize(&config);
    assert_eq!(
        synthesis.fixed,
        vec![
            CellAssignment { column: 5, row: 0, value: value(1) },
            CellAssignment { column: 6, row: 0, value: value(2) },
            CellAssignment { column: 5, row: 1, value: value(3) },
            CellAssignment { column: 6, row: 1, value: value(4) },
        ]
    );
    assert_eq!(
        synthesis.tags,
        vec![
            CellAssignment { column: 9, row: 0, value: value(1) },
            CellAssignment { column: 9, row: 1, value: value(1) },
        ]
    );
    assert_eq!(synthesis.selector_rows, vec![0]);
    assert_eq!(
        synthesis.advice,
        vec![
            CellAssignment { column: 7, row: 0, value: value(3) },
            CellAssignment { column: 8, row: 0, value: value(4) },
        ]
    );
    assert_eq!(
        synthesis.exposed,
        vec![
            ExposedCell { column: 7, row: 0, instance_row: 0 },
            ExposedCell { column: 8, row: 0, instance_row: 1 },
        ]
    );
}
