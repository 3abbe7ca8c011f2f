/* What DPDK offers only as inline functions, or through structures, as plain
 * functions. Build it into librouter_shim and link it with libdpdk:
 *
 *   cc -shared -fPIC $(pkg-config --cflags libdpdk) router_shim.c \
 *      -o librouter_shim.so $(pkg-config --libs libdpdk)
 */

#include <string.h>

#include <rte_ethdev.h>
#include <rte_ether.h>
#include <rte_lcore.h>
#include <rte_mbuf.h>
#include <rte_mempool.h>

struct router_dev_info {
	const char *driver_name;
	uint64_t rx_offload_capa;
	uint64_t tx_offload_capa;
	uint64_t flow_type_rss_offloads;
	uint32_t max_rx_pktlen;
	uint32_t max_mac_addrs;
	uint16_t max_rx_queues;
	uint16_t max_tx_queues;
	uint16_t reta_size;
	uint8_t hash_key_size;
};

unsigned int router_max_lcore(void)
{
	return RTE_MAX_LCORE;
}

uint16_t router_max_ethports(void)
{
	return RTE_MAX_ETHPORTS;
}

int router_dev_info(uint16_t port_id, struct router_dev_info *out)
{
	struct rte_eth_dev_info dev;
	int rc;

	memset(&dev, 0, sizeof(dev));
	rc = rte_eth_dev_info_get(port_id, &dev);
	if (rc != 0)
		return rc;
	out->driver_name = dev.driver_name;
	out->rx_offload_capa = dev.rx_offload_capa;
	out->tx_offload_capa = dev.tx_offload_capa;
	out->flow_type_rss_offloads = dev.flow_type_rss_offloads;
	out->max_rx_pktlen = dev.max_rx_pktlen;
	out->max_mac_addrs = dev.max_mac_addrs;
	out->max_rx_queues = dev.max_rx_queues;
	out->max_tx_queues = dev.max_tx_queues;
	out->reta_size = dev.reta_size;
	out->hash_key_size = dev.hash_key_size;
	return 0;
}

int router_mac_addr(uint16_t port_id, uint8_t *mac)
{
	struct rte_ether_addr addr;
	int rc;

	memset(&addr, 0, sizeof(addr));
	rc = rte_eth_macaddr_get(port_id, &addr);
	memcpy(mac, addr.addr_bytes, sizeof(addr.addr_bytes));
	return rc;
}

int router_dev_configure(uint16_t port_id, uint16_t nb_rx, uint16_t nb_tx,
			 uint32_t mq_mode, uint64_t rss_hf)
{
	struct rte_eth_conf conf;

	/* Zero stands for the defaults, and a null key for the device's own. */
	memset(&conf, 0, sizeof(conf));
	conf.rxmode.mq_mode = mq_mode;
	conf.rx_adv_conf.rss_conf.rss_hf = rss_hf;
	return rte_eth_dev_configure(port_id, nb_rx, nb_tx, &conf);
}

int router_rx_queue_setup(uint16_t port_id, uint16_t queue, uint16_t ring,
			  unsigned int socket, struct rte_mempool *pool)
{
	return rte_eth_rx_queue_setup(port_id, queue, ring, socket, NULL, pool);
}

int router_tx_queue_setup(uint16_t port_id, uint16_t queue, uint16_t ring,
			  unsigned int socket)
{
	return rte_eth_tx_queue_setup(port_id, queue, ring, socket, NULL);
}

uint16_t router_rx_burst(uint16_t port_id, uint16_t queue,
			 struct rte_mbuf **bufs, uint16_t n)
{
	return rte_eth_rx_burst(port_id, queue, bufs, n);
}

uint16_t router_tx_burst(uint16_t port_id, uint16_t queue,
			 struct rte_mbuf **bufs, uint16_t n)
{
	return rte_eth_tx_burst(port_id, queue, bufs, n);
}

struct rte_mbuf *router_mbuf_alloc(struct rte_mempool *pool)
{
	return rte_pktmbuf_alloc(pool);
}

void router_mbuf_free(struct rte_mbuf *m)
{
	rte_pktmbuf_free(m);
}

uint8_t *router_mbuf_append(struct rte_mbuf *m, uint16_t len)
{
	return (uint8_t *)rte_pktmbuf_append(m, len);
}

const uint8_t *router_mbuf_data(const struct rte_mbuf *m)
{
	return rte_pktmbuf_mtod(m, const uint8_t *);
}

uint16_t router_mbuf_data_len(const struct rte_mbuf *m)
{
	return rte_pktmbuf_data_len(m);
}
